use editoast::model_config::{
    extract_ident_of_path, ConfigError, FieldOptions, GeneratedType, Identifier, IdentifierError,
    IdentifierExpr, ModelConfig, ModelField, ModelOptions, TupleElement,
};

fn s(text: &str) -> String {
    text.to_string()
}

fn path(segments: &[&str]) -> Vec<String> {
    segments.iter().map(|x| x.to_string()).collect()
}

fn field(ident: &str) -> FieldOptions {
    FieldOptions {
        ident: s(ident),
        builder_fn: None,
        column: None,
        builder_skip: false,
        identifier: false,
        preferred: false,
        primary: false,
        json: false,
        geo: false,
    }
}

fn options(fields: Vec<FieldOptions>) -> ModelOptions {
    ModelOptions {
        table: path(&["crate", "tables", "thing"]),
        row: GeneratedType::default(),
        changeset: GeneratedType::default(),
        identifiers: vec![],
        preferred: None,
        fields,
    }
}

#[test]
fn test_construction() {
    let id = FieldOptions { column: Some(s("id")), preferred: true, primary: true, ..field("id_") };
    let content_type = FieldOptions { identifier: true, json: true, geo: true, ..field("content_type") };
    let data = field("data");
    let declaration = ModelOptions {
        table: path(&["crate", "tables", "osrd_infra_document"]),
        row: GeneratedType { name: Some(s("DocumentRow")), public: false },
        changeset: GeneratedType { name: Some(s("DocumentChangeset")), public: true },
        identifiers: vec![],
        preferred: None,
        fields: vec![id, content_type, data],
    };
    let config = ModelConfig::new(declaration, s("Document")).expect("should generate");
    assert_eq!(config.model, "Document");
    assert_eq!(config.row, GeneratedType { name: Some(s("DocumentRow")), public: false });
    assert_eq!(config.changeset, GeneratedType { name: Some(s("DocumentChangeset")), public: true });
    assert_eq!(config.primary_field, Identifier::Field(s("id_")));
    assert_eq!(config.preferred_identifier, Identifier::Field(s("id_")));
    assert_eq!(
        config.identifiers,
        vec![Identifier::Field(s("content_type")), Identifier::Field(s("id_"))]
    );
    assert_eq!(config.fields.len(), 3);
    assert_eq!(config.fields[0].column, "id");
    assert_eq!(config.fields[1].column, "content_type");
    assert_eq!(config.table_name(), Some(s("osrd_infra_document")));
}

#[test]
fn field_takes_its_own_name_where_none_is_given() {
    let plain = ModelField::from_options(&field("speed"));
    assert_eq!(plain.ident, "speed");
    assert_eq!(plain.column, "speed");
    assert_eq!(plain.builder_ident, "speed");
    let named = ModelField::from_options(&FieldOptions {
        column: Some(s("speed_kmh")),
        builder_fn: Some(s("with_speed")),
        builder_skip: true,
        geo: true,
        ..field("speed")
    });
    assert_eq!(
        named,
        ModelField {
            ident: s("speed"),
            column: s("speed_kmh"),
            builder_ident: s("with_speed"),
            builder_skip: true,
            identifier: false,
            preferred: false,
            primary: false,
            json: false,
            geo: true,
        }
    );
}

#[test]
fn model_without_field_is_refused() {
    assert_eq!(ModelConfig::new(options(vec![]), s("Thing")), Err(ConfigError::NoField));
}

#[test]
fn two_marked_primary_keys_are_refused() {
    let a = FieldOptions { primary: true, ..field("a") };
    let b = FieldOptions { primary: true, ..field("b") };
    assert_eq!(
        ModelConfig::new(options(vec![a, field("c"), b]), s("Thing")),
        Err(ConfigError::MultiplePrimary)
    );
}

#[test]
fn preferred_beside_a_marked_key_is_refused() {
    let a = FieldOptions { primary: true, ..field("a") };
    let mut declaration = options(vec![a, field("b")]);
    declaration.preferred = Some(Identifier::Field(s("b")));
    assert_eq!(
        ModelConfig::new(declaration, s("Thing")),
        Err(ConfigError::ConflictingPreferred)
    );
}

#[test]
fn key_defaults_to_the_field_id_then_to_the_first_field() {
    let with_id = ModelConfig::new(options(vec![field("name"), field("id")]), s("Thing")).unwrap();
    assert_eq!(with_id.primary_field, Identifier::Field(s("id")));
    assert_eq!(with_id.preferred_identifier, Identifier::Field(s("id")));
    assert_eq!(with_id.identifiers, vec![Identifier::Field(s("id"))]);
    let without = ModelConfig::new(options(vec![field("name"), field("size")]), s("Thing")).unwrap();
    assert_eq!(without.primary_field, Identifier::Field(s("name")));
    assert_eq!(without.identifiers, vec![Identifier::Field(s("name"))]);
}

#[test]
fn marked_key_wins_over_the_field_id() {
    let key = FieldOptions { primary: true, ..field("uuid") };
    let config = ModelConfig::new(options(vec![field("id"), key]), s("Thing")).unwrap();
    assert_eq!(config.primary_field, Identifier::Field(s("uuid")));
    assert!(config.is_primary(&config.fields[1]));
    assert!(!config.is_primary(&config.fields[0]));
}

#[test]
fn generated_types_are_named_after_the_model() {
    let config = ModelConfig::new(options(vec![field("id")]), s("Train")).unwrap();
    assert_eq!(config.row.name, Some(s("TrainRow")));
    assert_eq!(config.changeset.name, Some(s("TrainChangeset")));
    assert!(!config.row.public);
}

#[test]
fn identifiers_are_collected_once_each_in_order() {
    let name = FieldOptions { identifier: true, ..field("name") };
    let code = FieldOptions { identifier: true, ..field("code") };
    let mut declaration = options(vec![field("id"), name, code]);
    let pair = Identifier::Compound(vec![s("name"), s("code")]);
    declaration.identifiers =
        vec![pair.clone(), Identifier::Field(s("code")), pair.clone()];
    declaration.preferred = Some(Identifier::Field(s("name")));
    let config = ModelConfig::new(declaration, s("Thing")).unwrap();
    assert_eq!(
        config.identifiers,
        vec![
            pair,
            Identifier::Field(s("code")),
            Identifier::Field(s("name")),
            Identifier::Field(s("id")),
        ]
    );
    assert_eq!(config.preferred_identifier, Identifier::Field(s("name")));
    assert_eq!(config.primary_field, Identifier::Field(s("id")));
}

#[test]
fn compound_of_one_field_is_not_that_field() {
    let single = Identifier::Compound(vec![s("id")]);
    assert!(!single.same(&Identifier::Field(s("id"))));
    assert!(single.same(&Identifier::Compound(vec![s("id")])));
    assert!(!single.same(&Identifier::Compound(vec![s("id"), s("id")])));
    assert!(!single.same(&Identifier::Compound(vec![s("di")])));
    assert!(Identifier::Field(s("a")).same(&Identifier::Field(s("a"))));
    assert!(!Identifier::Field(s("a")).same(&Identifier::Field(s("b"))));
    assert_eq!(single.duplicate(), single);
}

#[test]
fn identifier_lists_its_fields() {
    assert_eq!(Identifier::Field(s("a")).get_idents(), vec![s("a")]);
    assert_eq!(
        Identifier::Compound(vec![s("a"), s("b")]).get_idents(),
        vec![s("a"), s("b")]
    );
}

#[test]
fn fields_are_found_by_name() {
    let config =
        ModelConfig::new(options(vec![field("id"), field("name"), field("name")]), s("T")).unwrap();
    assert_eq!(config.get(&s("name")), Some(1));
    assert_eq!(config.get(&s("id")), Some(0));
    assert_eq!(config.get(&s("none")), None);
}

#[test]
fn table_name_is_the_last_segment() {
    let mut config = ModelConfig::new(options(vec![field("id")]), s("T")).unwrap();
    assert_eq!(config.table_name(), Some(s("thing")));
    config.table = vec![];
    assert_eq!(config.table_name(), None);
}

#[test]
fn path_of_one_segment_is_a_name() {
    assert_eq!(extract_ident_of_path(&path(&["id"])), Ok(s("id")));
    assert_eq!(
        extract_ident_of_path(&path(&["crate", "id"])),
        Err(IdentifierError::UnexpectedPath)
    );
}

#[test]
fn expressions_declare_identifiers() {
    assert_eq!(
        Identifier::from_expr(&IdentifierExpr::Path(path(&["id"]))),
        Ok(Identifier::Field(s("id")))
    );
    assert_eq!(
        Identifier::from_expr(&IdentifierExpr::Tuple(vec![
            TupleElement::Path(path(&["a"])),
            TupleElement::Path(path(&["b"])),
        ])),
        Ok(Identifier::Compound(vec![s("a"), s("b")]))
    );
    assert_eq!(
        Identifier::from_expr(&IdentifierExpr::Tuple(vec![])),
        Ok(Identifier::Compound(vec![]))
    );
}

#[test]
fn other_expressions_declare_nothing() {
    assert_eq!(Identifier::from_expr(&IdentifierExpr::Other), Err(IdentifierError::Invalid));
    assert_eq!(
        Identifier::from_expr(&IdentifierExpr::Path(path(&["a", "b"]))),
        Err(IdentifierError::UnexpectedPath)
    );
    assert_eq!(
        Identifier::from_expr(&IdentifierExpr::Tuple(vec![
            TupleElement::Path(path(&["a"])),
            TupleElement::Other,
            TupleElement::Path(path(&["b", "c"])),
        ])),
        Err(IdentifierError::InvalidCompound)
    );
    assert_eq!(
        Identifier::from_expr(&IdentifierExpr::Tuple(vec![
            TupleElement::Path(path(&["b", "c"])),
            TupleElement::Other,
        ])),
        Err(IdentifierError::UnexpectedPath)
    );
}

#[test]
fn errors_have_their_words() {
    assert_eq!(
        IdentifierError::UnexpectedPath.message(),
        "Model: unexpected path in 'identifier' expression"
    );
    assert_eq!(
        IdentifierError::InvalidCompound.message(),
        "Model: invalid compound 'identifier' expression: must be a tuple of idents"
    );
    assert_eq!(IdentifierError::Invalid.message(), "Model: invalid 'identifier' expression");
}
