use starchart::dns::Configuration;

#[test]
fn dns_txt_parser_works() {
    const REQ: &str = "spidering=false,rate=500";
    const RES: Configuration = Configuration {
        spidering: false,
        rate: Some(500),
    };

    const REQ_2: &str = "spidering=true";
    const RES_2: Configuration = Configuration {
        spidering: true,
        rate: None,
    };

    assert_eq!(Configuration::parse(REQ), RES);
    assert_eq!(Configuration::parse(REQ_2), RES_2);
}

#[test]
fn dns_txt_parser_takes_white_space_and_the_last_setting() {
    assert_eq!(
        Configuration::try_parse(" spidering = true , rate = 7 "),
        Some(Configuration {
            spidering: true,
            rate: Some(7)
        })
    );
    assert_eq!(
        Configuration::try_parse("rate=1,rate=2,spidering=true,spidering=false"),
        Some(Configuration {
            spidering: false,
            rate: Some(2)
        })
    );
    assert_eq!(
        Configuration::try_parse("rate=18446744073709551615"),
        Some(Configuration {
            spidering: false,
            rate: Some(u64::MAX)
        })
    );
    assert_eq!(
        Configuration::try_parse("spidering=true=false"),
        Some(Configuration {
            spidering: true,
            rate: None
        })
    );
}

#[test]
fn dns_txt_parser_refuses_what_is_no_setting() {
    assert_eq!(Configuration::try_parse(""), None);
    assert_eq!(Configuration::try_parse("spidering"), None);
    assert_eq!(Configuration::try_parse("spidering=yes"), None);
    assert_eq!(Configuration::try_parse("rate=fast"), None);
    assert_eq!(Configuration::try_parse("rate=-1"), None);
    assert_eq!(Configuration::try_parse("rate=18446744073709551616"), None);
    assert_eq!(Configuration::try_parse("colour=blue"), None);
    assert_eq!(Configuration::try_parse("spidering=true,"), None);
    assert_eq!(Configuration::try_parse("Spidering=true"), None);
    assert_eq!(Configuration::default(), Configuration { spidering: false, rate: None });
}
