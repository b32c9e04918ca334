use suntime::output::Format;

#[test]
fn formats_by_name() {
    assert_eq!(Format::from_name("human"), Some(Format::Human));
    assert_eq!(Format::from_name("csv"), Some(Format::Csv));
    assert_eq!(Format::from_name("json"), Some(Format::Json));
    assert_eq!(Format::from_name("plot"), Some(Format::Plot));
    assert_eq!(Format::from_name("Plot"), None);
    assert_eq!(Format::from_name("plots"), None);
    assert_eq!(Format::from_name(""), None);
}
