use deck_list_scraper::formats::Format;

#[test]
fn classify_recognizes_standard_in_any_case() {
    assert_eq!(Format::classify("Standard"), Format::Standard);
    assert_eq!(Format::classify("standard"), Format::Standard);
    assert_eq!(Format::classify(" STANDARD "), Format::Standard);
}

#[test]
fn classify_unrecognized_is_unknown() {
    assert_eq!(Format::classify("freeform"), Format::Unknown);
    assert_eq!(Format::classify(""), Format::Unknown);
    assert_eq!(Format::classify("standard extra"), Format::Unknown);
}

#[test]
fn classify_covers_every_token() {
    assert_eq!(Format::classify("pioneer"), Format::Pioneer);
    assert_eq!(Format::classify("modern"), Format::Modern);
    assert_eq!(Format::classify("legacy"), Format::Legacy);
    assert_eq!(Format::classify("vintage"), Format::Vintage);
    assert_eq!(Format::classify("pauper"), Format::Pauper);
    assert_eq!(Format::classify("historic"), Format::Historic);
    assert_eq!(Format::classify("alchemy"), Format::Alchemy);
    assert_eq!(Format::classify("explorer"), Format::Explorer);
    assert_eq!(Format::classify("premodern"), Format::Premodern);
    assert_eq!(Format::classify("oldschool"), Format::OldSchool);
}

#[test]
fn token_round_trip() {
    let all = vec![
        Format::Standard,
        Format::Pioneer,
        Format::Modern,
        Format::Legacy,
        Format::Vintage,
        Format::Pauper,
        Format::Historic,
        Format::Alchemy,
        Format::Explorer,
        Format::Premodern,
        Format::OldSchool,
        Format::Unknown,
    ];
    for f in all {
        assert_eq!(Format::classify(f.to_token()), f);
    }
}

#[test]
fn from_str_matches_classify() {
    assert_eq!(Format::from("  Modern\n"), Format::Modern);
    assert_eq!(Format::from("arena"), Format::Unknown);
}
