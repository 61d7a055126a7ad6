use afanasieff_rs::sources::sources;

#[test]
fn exposes_the_quote_sources() {
    assert_eq!(sources().len(), 3);
}
