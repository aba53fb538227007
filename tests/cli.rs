use rgb20::cli::{ExportFormat, InvalidName, SchemaName};
use rgb20::schema::Subschema;

#[test]
fn schema_names() {
    assert_eq!("legacy-basic".parse::<SchemaName>(), Ok(SchemaName::LegacyBasic));
    assert_eq!(SchemaName::parse("legacy-complete"), Ok(SchemaName::LegacyComplete));
    assert_eq!(SchemaName::parse("legacy"), Err(InvalidName("legacy".to_string())));
    assert_eq!(SchemaName::LegacyBasic.subschema(), Subschema::Full);
    assert_eq!(SchemaName::LegacyComplete.subschema(), Subschema::Inflationary);
}

#[test]
fn export_formats() {
    assert_eq!(ExportFormat::parse("bin"), Ok(ExportFormat::Binary));
    assert_eq!(ExportFormat::parse("bech32"), Ok(ExportFormat::Bech32));
    assert_eq!(ExportFormat::parse("base64"), Ok(ExportFormat::Base64));
    assert_eq!("json".parse::<ExportFormat>(), Ok(ExportFormat::Json));
    assert_eq!(ExportFormat::parse("yaml"), Ok(ExportFormat::Yaml));
    assert_eq!(ExportFormat::parse("YAML"), Err(InvalidName("YAML".to_string())));
}
