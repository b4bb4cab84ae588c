//! What a model of a table is made of, worked out from what its declaration
//! says: the columns of its fields, the field that is its primary key, and
//! the identifiers by which a record can be found.
use vstd::prelude::*;
use vstd::string::StringExecFns;
use crate::railjson::views;

verus! {

/// What the attributes of one field say.
#[derive(Debug, Clone, PartialEq, Eq)]
pub struct FieldOptions {
    pub ident: String,
    pub builder_fn: Option<String>,
    pub column: Option<String>,
    pub builder_skip: bool,
    pub identifier: bool,
    pub preferred: bool,
    pub primary: bool,
    pub json: bool,
    pub geo: bool,
}

/// A field of a model.
#[derive(Debug, Clone, PartialEq, Eq)]
pub struct ModelField {
    pub ident: String,
    pub column: String,
    pub builder_ident: String,
    pub builder_skip: bool,
    pub identifier: bool,
    pub preferred: bool,
    pub primary: bool,
    pub json: bool,
    pub geo: bool,
}

/// That by which a record is found: one field, or several fields together.
#[derive(Debug, Clone, PartialEq, Eq, Hash)]
pub enum Identifier {
    Field(String),
    Compound(Vec<String>),
}

pub enum IdentifierView {
    Field(Seq<char>),
    Compound(Seq<Seq<char>>),
}

/// The texts of a list of names.
pub open spec fn names(idents: Seq<String>) -> Seq<Seq<char>> {
    Seq::new(idents.len(), |i: int| idents[i]@)
}

impl View for Identifier {
    type V = IdentifierView;

    open spec fn view(&self) -> IdentifierView {
        match self {
            Identifier::Field(ident) => IdentifierView::Field(ident@),
            Identifier::Compound(idents) => IdentifierView::Compound(names(idents@)),
        }
    }
}

/// The name that a field has where it gives none: that of the field itself.
pub open spec fn name_or(given: Option<String>, ident: String) -> Seq<char> {
    match given {
        Some(name) => name@,
        None => ident@,
    }
}

/// Whether the field is what the options say, with the name of the field
/// for the column and for the builder function where the options name none.
pub open spec fn field_follows(field: ModelField, options: FieldOptions) -> bool {
    &&& field.ident@ == options.ident@
    &&& field.column@ == name_or(options.column, options.ident)
    &&& field.builder_ident@ == name_or(options.builder_fn, options.ident)
    &&& field.builder_skip == options.builder_skip
    &&& field.identifier == options.identifier
    &&& field.preferred == options.preferred
    &&& field.primary == options.primary
    &&& field.json == options.json
    &&& field.geo == options.geo
}

fn copy_names(idents: &Vec<String>) -> (copy: Vec<String>)
    ensures
        names(copy@) == names(idents@),
{
    let mut copy: Vec<String> = Vec::new();
    let mut i: usize = 0;
    while i < idents.len()
        invariant
            i <= idents@.len(),
            copy@.len() == i,
            forall|k: int| 0 <= k < i ==> (#[trigger] copy@[k])@ == idents@[k]@,
        decreases idents@.len() - i,
    {
        copy.push(idents[i].clone());
        i += 1;
    }
    assert(names(copy@) =~= names(idents@));
    copy
}

fn same_names(left: &Vec<String>, right: &Vec<String>) -> (same: bool)
    ensures
        same == (names(left@) == names(right@)),
{
    if left.len() != right.len() {
        assert(names(left@).len() != names(right@).len());
        return false;
    }
    let mut i: usize = 0;
    while i < left.len()
        invariant
            i <= left@.len(),
            left@.len() == right@.len(),
            forall|k: int| 0 <= k < i ==> (#[trigger] left@[k])@ == right@[k]@,
        decreases left@.len() - i,
    {
        if left[i] != right[i] {
            assert(names(left@)[i as int] != names(right@)[i as int]);
            return false;
        }
        i += 1;
    }
    assert(names(left@) =~= names(right@));
    true
}

impl ModelField {
    /// The field that the options describe.
    pub fn from_options(value: &FieldOptions) -> (field: ModelField)
        ensures
            field_follows(field, *value),
    {
        let column = match &value.column {
            Some(name) => name.clone(),
            None => value.ident.clone(),
        };
        let builder_ident = match &value.builder_fn {
            Some(name) => name.clone(),
            None => value.ident.clone(),
        };
        ModelField {
            ident: value.ident.clone(),
            builder_ident,
            column,
            builder_skip: value.builder_skip,
            identifier: value.identifier,
            preferred: value.preferred,
            primary: value.primary,
            json: value.json,
            geo: value.geo,
        }
    }
}

impl Identifier {
    /// The names of the fields that make up the identifier.
    pub open spec fn idents(self) -> Seq<Seq<char>> {
        match self {
            Identifier::Field(ident) => seq![ident@],
            Identifier::Compound(idents) => names(idents@),
        }
    }

    pub fn get_idents(&self) -> (idents: Vec<String>)
        ensures
            names(idents@) == self.idents(),
    {
        match self {
            Identifier::Field(ident) => {
                let mut idents: Vec<String> = Vec::new();
                idents.push(ident.clone());
                assert(names(idents@) =~= seq![ident@]);
                idents
            },
            Identifier::Compound(idents) => copy_names(idents),
        }
    }

    /// Whether two identifiers name the same fields in the same way.
    pub fn same(&self, other: &Identifier) -> (same: bool)
        ensures
            same == (self@ == other@),
    {
        match (self, other) {
            (Identifier::Field(a), Identifier::Field(b)) => *a == *b,
            (Identifier::Compound(a), Identifier::Compound(b)) => same_names(a, b),
            _ => false,
        }
    }

    /// A copy of the identifier.
    pub fn duplicate(&self) -> (copy: Identifier)
        ensures
            copy@ == self@,
    {
        match self {
            Identifier::Field(ident) => Identifier::Field(ident.clone()),
            Identifier::Compound(idents) => Identifier::Compound(copy_names(idents)),
        }
    }
}

/// A part of a tuple in the expression of an identifier.
#[derive(Debug, Clone, PartialEq, Eq)]
pub enum TupleElement {
    /// A path, by its segments.
    Path(Vec<String>),
    /// Anything else.
    Other,
}

/// The expression that declares an identifier.
#[derive(Debug, Clone, PartialEq, Eq)]
pub enum IdentifierExpr {
    /// A path, by its segments.
    Path(Vec<String>),
    /// A tuple, by its parts.
    Tuple(Vec<TupleElement>),
    /// Anything else.
    Other,
}

/// Why an expression declares no identifier.
#[derive(Debug, Clone, Copy, PartialEq, Eq, Structural)]
pub enum IdentifierError {
    /// A path of more than one segment.
    UnexpectedPath,
    /// A tuple with a part that is no path.
    InvalidCompound,
    /// Neither a path nor a tuple.
    Invalid,
}

/// The name that a path stands for: its one segment.
pub open spec fn path_name(path: Seq<String>) -> Result<Seq<char>, IdentifierError> {
    if path.len() == 1 {
        Ok(path[0]@)
    } else {
        Err(IdentifierError::UnexpectedPath)
    }
}

/// The names that the parts of a tuple stand for, or what is wrong with the
/// first part that stands for none.
pub open spec fn tuple_names(elements: Seq<TupleElement>) -> Result<
    Seq<Seq<char>>,
    IdentifierError,
>
    decreases elements.len(),
{
    if elements.len() == 0 {
        Ok(Seq::empty())
    } else {
        match tuple_names(elements.drop_last()) {
            Err(error) => Err(error),
            Ok(before) => match elements.last() {
                TupleElement::Path(path) => match path_name(path@) {
                    Ok(name) => Ok(before.push(name)),
                    Err(error) => Err(error),
                },
                TupleElement::Other => Err(IdentifierError::InvalidCompound),
            },
        }
    }
}

/// The identifier that an expression declares.
pub open spec fn declared_by(expr: IdentifierExpr) -> Result<IdentifierView, IdentifierError> {
    match expr {
        IdentifierExpr::Path(path) => match path_name(path@) {
            Ok(name) => Ok(IdentifierView::Field(name)),
            Err(error) => Err(error),
        },
        IdentifierExpr::Tuple(elements) => match tuple_names(elements@) {
            Ok(names) => Ok(IdentifierView::Compound(names)),
            Err(error) => Err(error),
        },
        IdentifierExpr::Other => Err(IdentifierError::Invalid),
    }
}

/// The view of an identifier that may have failed to be declared.
pub open spec fn declaration_view(declared: Result<Identifier, IdentifierError>) -> Result<
    IdentifierView,
    IdentifierError,
> {
    match declared {
        Ok(identifier) => Ok(identifier@),
        Err(error) => Err(error),
    }
}

impl IdentifierError {
    pub open spec fn text(self) -> Seq<char> {
        match self {
            IdentifierError::UnexpectedPath => "Model: unexpected path in 'identifier' expression"@,
            IdentifierError::InvalidCompound => "Model: invalid compound 'identifier' expression: must be a tuple of idents"@,
            IdentifierError::Invalid => "Model: invalid 'identifier' expression"@,
        }
    }

    /// The words in which the error is reported.
    pub fn message(&self) -> (message: &'static str)
        ensures
            message@ == self.text(),
    {
        match self {
            IdentifierError::UnexpectedPath => "Model: unexpected path in 'identifier' expression",
            IdentifierError::InvalidCompound => "Model: invalid compound 'identifier' expression: must be a tuple of idents",
            IdentifierError::Invalid => "Model: invalid 'identifier' expression",
        }
    }
}

/// The name that a path stands for: its one segment. A path of several
/// segments stands for none.
pub fn extract_ident_of_path(path: &Vec<String>) -> (ident: Result<String, IdentifierError>)
    requires
        path@.len() > 0,
    ensures
        match ident {
            Ok(name) => path_name(path@) == Ok::<Seq<char>, IdentifierError>(name@),
            Err(error) => path_name(path@) == Err::<Seq<char>, IdentifierError>(error),
        },
{
    if path.len() > 1 {
        Err(IdentifierError::UnexpectedPath)
    } else {
        Ok(path[0].clone())
    }
}

impl Identifier {
    /// Reads an identifier from the expression that declares it: a path of
    /// one segment names a field, a tuple of such paths names several fields
    /// together, and nothing else names an identifier.
    pub fn from_expr(expr: &IdentifierExpr) -> (declared: Result<Identifier, IdentifierError>)
        requires
            expr matches IdentifierExpr::Path(path) ==> path@.len() > 0,
            expr matches IdentifierExpr::Tuple(elements) ==> forall|i: int|
                0 <= i < elements@.len() ==> (#[trigger] elements@[i] matches TupleElement::Path(
                    path,
                ) ==> path@.len() > 0),
        ensures
            declaration_view(declared) == declared_by(*expr),
    {
        match expr {
            IdentifierExpr::Path(path) => match extract_ident_of_path(path) {
                Ok(name) => Ok(Identifier::Field(name)),
                Err(error) => Err(error),
            },
            IdentifierExpr::Tuple(elements) => {
                let mut idents: Vec<String> = Vec::new();
                let mut i: usize = 0;
                assert(names(idents@) =~= Seq::<Seq<char>>::empty());
                while i < elements.len()
                    invariant
                        i <= elements@.len(),
                        *expr == IdentifierExpr::Tuple(*elements),
                        forall|k: int|
                            0 <= k < elements@.len() ==> (#[trigger] elements@[k] matches TupleElement::Path(
                                path,
                            ) ==> path@.len() > 0),
                        tuple_names(elements@.take(i as int)) == Ok::<
                            Seq<Seq<char>>,
                            IdentifierError,
                        >(names(idents@)),
                    decreases elements@.len() - i,
                {
                    assert(elements@.take(i + 1).drop_last() == elements@.take(i as int));
                    assert(elements@.take(i + 1).last() == elements@[i as int]);
                    match &elements[i] {
                        TupleElement::Path(path) => match extract_ident_of_path(path) {
                            Ok(name) => {
                                idents.push(name);
                                assert(names(idents@) =~= tuple_names(
                                    elements@.take(i as int),
                                )->Ok_0.push(name@));
                            },
                            Err(error) => {
                                proof {
                                    lemma_tuple_error_stays(elements@, i + 1, error);
                                }
                                return Err(error);
                            },
                        },
                        TupleElement::Other => {
                            proof {
                                lemma_tuple_error_stays(
                                    elements@,
                                    i + 1,
                                    IdentifierError::InvalidCompound,
                                );
                            }
                            return Err(IdentifierError::InvalidCompound);
                        },
                    }
                    i += 1;
                }
                assert(elements@.take(i as int) == elements@);
                Ok(Identifier::Compound(idents))
            },
            IdentifierExpr::Other => Err(IdentifierError::Invalid),
        }
    }
}

/// What is wrong with the first parts of a tuple is wrong with the tuple.
proof fn lemma_tuple_error_stays(elements: Seq<TupleElement>, n: int, error: IdentifierError)
    requires
        0 <= n <= elements.len(),
        tuple_names(elements.take(n)) == Err::<Seq<Seq<char>>, IdentifierError>(error),
    ensures
        tuple_names(elements) == Err::<Seq<Seq<char>>, IdentifierError>(error),
    decreases elements.len() - n,
{
    if n == elements.len() {
        assert(elements.take(n) == elements);
    } else {
        assert(elements.take(n + 1).drop_last() == elements.take(n));
        lemma_tuple_error_stays(elements, n + 1, error);
    }
}

/// How a generated type is declared.
#[derive(Debug, Clone, PartialEq, Eq, Default)]
pub struct GeneratedType {
    pub name: Option<String>,
    pub public: bool,
}

/// What the declaration of a model says.
#[derive(Debug, Clone, PartialEq, Eq)]
pub struct ModelOptions {
    /// The path of the table, by its segments.
    pub table: Vec<String>,
    pub row: GeneratedType,
    pub changeset: GeneratedType,
    /// The identifiers that the model declares as a whole.
    pub identifiers: Vec<Identifier>,
    /// The identifier that the model prefers, if it says so.
    pub preferred: Option<Identifier>,
    pub fields: Vec<FieldOptions>,
}

/// A model of a table.
#[derive(Debug, Clone, PartialEq, Eq)]
pub struct ModelConfig {
    pub model: String,
    pub table: Vec<String>,
    pub fields: Vec<ModelField>,
    pub row: GeneratedType,
    pub changeset: GeneratedType,
    /// The identifiers of the model, none of them twice.
    pub identifiers: Vec<Identifier>,
    /// One of the identifiers.
    pub preferred_identifier: Identifier,
    /// One of the identifiers.
    pub primary_field: Identifier,
}

/// Why a declaration makes no model.
#[derive(Debug, Clone, Copy, PartialEq, Eq, Structural)]
pub enum ConfigError {
    /// The model has no field.
    NoField,
    /// More than one field is marked as the primary key.
    MultiplePrimary,
    /// A preferred identifier is declared beside a field marked as the
    /// primary key.
    ConflictingPreferred,
}

/// The places of the fields that are marked as the primary key.
pub open spec fn marked_primary(fields: Seq<FieldOptions>) -> Seq<int>
    decreases fields.len(),
{
    if fields.len() == 0 {
        Seq::empty()
    } else {
        let before = marked_primary(fields.drop_last());
        if fields.last().primary {
            before.push(fields.len() - 1)
        } else {
            before
        }
    }
}

/// Whether one of the fields has the name.
pub open spec fn has_field(fields: Seq<FieldOptions>, name: Seq<char>) -> bool {
    exists|i: int| 0 <= i < fields.len() && (#[trigger] fields[i]).ident@ == name
}

/// The name of the primary key: the field that is marked as such; where none
/// is, the field `id`; where there is none of that name, the first field.
pub open spec fn primary_name(fields: Seq<FieldOptions>) -> Seq<char> {
    if marked_primary(fields).len() > 0 {
        fields[marked_primary(fields)[0]].ident@
    } else if has_field(fields, "id"@) {
        "id"@
    } else {
        fields[0].ident@
    }
}

/// The preferred identifier: the declared one; where none is declared, the
/// field marked as the primary key, or else the primary key. To declare one
/// beside a marked field is a conflict.
pub open spec fn preferred_of(declared: Option<Identifier>, fields: Seq<FieldOptions>) -> Result<
    IdentifierView,
    ConfigError,
> {
    match declared {
        Some(identifier) => if marked_primary(fields).len() == 0 {
            Ok(identifier@)
        } else {
            Err(ConfigError::ConflictingPreferred)
        },
        None => Ok(IdentifierView::Field(primary_name(fields))),
    }
}

/// The list with one more identifier, unless it is there already.
pub open spec fn with_identifier(list: Seq<IdentifierView>, identifier: IdentifierView) -> Seq<
    IdentifierView,
> {
    if list.contains(identifier) {
        list
    } else {
        list.push(identifier)
    }
}

/// The list with the declared identifiers added in their order.
pub open spec fn with_declared(list: Seq<IdentifierView>, declared: Seq<Identifier>) -> Seq<
    IdentifierView,
>
    decreases declared.len(),
{
    if declared.len() == 0 {
        list
    } else {
        with_identifier(with_declared(list, declared.drop_last()), declared.last()@)
    }
}

/// The list with the fields that are marked as identifiers added in their
/// order.
pub open spec fn with_marked(list: Seq<IdentifierView>, fields: Seq<FieldOptions>) -> Seq<
    IdentifierView,
>
    decreases fields.len(),
{
    if fields.len() == 0 {
        list
    } else {
        let before = with_marked(list, fields.drop_last());
        if fields.last().identifier {
            with_identifier(before, IdentifierView::Field(fields.last().ident@))
        } else {
            before
        }
    }
}

/// The identifiers of a model: those that it declares as a whole, the fields
/// marked as identifiers, the primary key and the preferred identifier, each
/// once.
pub open spec fn identifiers_of(
    declared: Seq<Identifier>,
    fields: Seq<FieldOptions>,
    preferred: IdentifierView,
) -> Seq<IdentifierView> {
    with_identifier(
        with_identifier(
            with_marked(with_declared(Seq::empty(), declared), fields),
            IdentifierView::Field(primary_name(fields)),
        ),
        preferred,
    )
}

/// The name of a generated type: the declared one, or the name of the model
/// with the suffix.
pub open spec fn generated_name(declared: Option<String>, model: Seq<char>, suffix: Seq<char>) -> Seq<
    char,
> {
    match declared {
        Some(name) => name@,
        None => model + suffix,
    }
}

/// What is wrong with a declaration, if anything is.
pub open spec fn config_error(options: ModelOptions) -> Option<ConfigError> {
    if options.fields@.len() == 0 {
        Some(ConfigError::NoField)
    } else if marked_primary(options.fields@).len() > 1 {
        Some(ConfigError::MultiplePrimary)
    } else if options.preferred is Some && marked_primary(options.fields@).len() == 1 {
        Some(ConfigError::ConflictingPreferred)
    } else {
        None
    }
}

/// Whether the model is what the declaration says.
pub open spec fn config_follows(config: ModelConfig, options: ModelOptions, model: Seq<char>) -> bool {
    &&& config.model@ == model
    &&& names(config.table@) == names(options.table@)
    &&& config.fields@.len() == options.fields@.len()
    &&& forall|i: int|
        0 <= i < config.fields@.len() ==> field_follows(
            #[trigger] config.fields@[i],
            options.fields@[i],
        )
    &&& config.row.public == options.row.public
    &&& config.row.name matches Some(name) && name@ == generated_name(
        options.row.name,
        model,
        "Row"@,
    )
    &&& config.changeset.public == options.changeset.public
    &&& config.changeset.name matches Some(name) && name@ == generated_name(
        options.changeset.name,
        model,
        "Changeset"@,
    )
    &&& config.primary_field@ == IdentifierView::Field(primary_name(options.fields@))
    &&& preferred_of(options.preferred, options.fields@) == Ok::<IdentifierView, ConfigError>(
        config.preferred_identifier@,
    )
    &&& views(config.identifiers@) == identifiers_of(
        options.identifiers@,
        options.fields@,
        config.preferred_identifier@,
    )
}

fn name_generated(declared: &Option<String>, model: &String, suffix: &str) -> (name: String)
    ensures
        name@ == generated_name(*declared, model@, suffix@),
{
    match declared {
        Some(name) => name.clone(),
        None => model.clone().concat(suffix),
    }
}

/// Adds an identifier to the list, unless it is there already.
fn add_identifier(list: &mut Vec<Identifier>, identifier: Identifier)
    ensures
        views(final(list)@) == with_identifier(views(old(list)@), identifier@),
{
    let mut i: usize = 0;
    while i < list.len()
        invariant
            i <= list@.len(),
            list@ == old(list)@,
            forall|k: int| 0 <= k < i ==> (#[trigger] list@[k])@ != identifier@,
        decreases list@.len() - i,
    {
        if list[i].same(&identifier) {
            assert(views(list@)[i as int] == identifier@);
            return ;
        }
        i += 1;
    }
    assert(!views(list@).contains(identifier@)) by {
        if views(list@).contains(identifier@) {
            let k = choose|k: int| 0 <= k < views(list@).len() && views(list@)[k] == identifier@;
            assert(list@[k]@ == identifier@);
        }
    }
    list.push(identifier);
    assert(views(list@) =~= views(old(list)@).push(identifier@));
}

/// Finds the fields that are marked as the primary key: how many there are,
/// and the place of the first.
fn find_primary(fields: &Vec<FieldOptions>) -> (found: (usize, usize))
    ensures
        found.0 == marked_primary(fields@).len(),
        found.0 > 0 ==> found.1 == marked_primary(fields@)[0] && found.1 < fields@.len(),
{
    let mut count: usize = 0;
    let mut first: usize = 0;
    let mut i: usize = 0;
    while i < fields.len()
        invariant
            i <= fields@.len(),
            count <= i,
            count == marked_primary(fields@.take(i as int)).len(),
            count > 0 ==> first == marked_primary(fields@.take(i as int))[0] && first < i,
        decreases fields@.len() - i,
    {
        assert(fields@.take(i + 1).drop_last() == fields@.take(i as int));
        if fields[i].primary {
            if count == 0 {
                first = i;
            }
            count += 1;
        }
        i += 1;
    }
    assert(fields@.take(i as int) == fields@);
    (count, first)
}

/// Whether one of the fields has the name.
fn find_field(fields: &Vec<FieldOptions>, name: &String) -> (found: bool)
    ensures
        found == has_field(fields@, name@),
{
    let mut i: usize = 0;
    while i < fields.len()
        invariant
            i <= fields@.len(),
            forall|k: int| 0 <= k < i ==> (#[trigger] fields@[k]).ident@ != name@,
        decreases fields@.len() - i,
    {
        if fields[i].ident == *name {
            return true;
        }
        i += 1;
    }
    false
}

impl ModelConfig {
    /// Works out the model that a declaration describes.
    ///
    /// A model needs a field. At most one field may be marked as the primary
    /// key; without a marked field, the key is the field `id`, or else the
    /// first field. The preferred identifier is the declared one, or else the
    /// primary key; it cannot be declared beside a marked field. The
    /// generated types get the name of the model with `Row` and `Changeset`
    /// behind it, unless the declaration names them.
    pub fn new(options: ModelOptions, model_name: String) -> (result: Result<
        ModelConfig,
        ConfigError,
    >)
        ensures
            match result {
                Ok(config) => config_error(options) is None && config_follows(
                    config,
                    options,
                    model_name@,
                ),
                Err(error) => config_error(options) == Some(error),
            },
    {
        if options.fields.len() == 0 {
            return Err(ConfigError::NoField);
        }
        let (marked, first_marked) = find_primary(&options.fields);
        if marked > 1 {
            return Err(ConfigError::MultiplePrimary);
        }
        let id = String::from_str("id");
        let primary_name: String = if marked == 1 {
            options.fields[first_marked].ident.clone()
        } else if find_field(&options.fields, &id) {
            id
        } else {
            options.fields[0].ident.clone()
        };
        let preferred_identifier = match &options.preferred {
            Some(identifier) => {
                if marked != 0 {
                    return Err(ConfigError::ConflictingPreferred);
                }
                identifier.duplicate()
            },
            None => Identifier::Field(primary_name.clone()),
        };
        let primary_field = Identifier::Field(primary_name);

        let mut fields: Vec<ModelField> = Vec::new();
        let mut i: usize = 0;
        while i < options.fields.len()
            invariant
                i <= options.fields@.len(),
                fields@.len() == i,
                forall|k: int|
                    0 <= k < i ==> field_follows(#[trigger] fields@[k], options.fields@[k]),
            decreases options.fields@.len() - i,
        {
            fields.push(ModelField::from_options(&options.fields[i]));
            i += 1;
        }

        let mut identifiers: Vec<Identifier> = Vec::new();
        assert(views(identifiers@) =~= Seq::<IdentifierView>::empty());
        let mut d: usize = 0;
        while d < options.identifiers.len()
            invariant
                d <= options.identifiers@.len(),
                views(identifiers@) == with_declared(
                    Seq::empty(),
                    options.identifiers@.take(d as int),
                ),
            decreases options.identifiers@.len() - d,
        {
            assert(options.identifiers@.take(d + 1).drop_last() == options.identifiers@.take(
                d as int,
            ));
            add_identifier(&mut identifiers, options.identifiers[d].duplicate());
            d += 1;
        }
        assert(options.identifiers@.take(d as int) == options.identifiers@);
        let ghost declared = views(identifiers@);
        let mut f: usize = 0;
        while f < options.fields.len()
            invariant
                f <= options.fields@.len(),
                views(identifiers@) == with_marked(declared, options.fields@.take(f as int)),
            decreases options.fields@.len() - f,
        {
            assert(options.fields@.take(f + 1).drop_last() == options.fields@.take(f as int));
            if options.fields[f].identifier {
                add_identifier(
                    &mut identifiers,
                    Identifier::Field(options.fields[f].ident.clone()),
                );
            }
            f += 1;
        }
        assert(options.fields@.take(f as int) == options.fields@);
        add_identifier(&mut identifiers, primary_field.duplicate());
        add_identifier(&mut identifiers, preferred_identifier.duplicate());

        let row = GeneratedType {
            name: Some(name_generated(&options.row.name, &model_name, "Row")),
            public: options.row.public,
        };
        let changeset = GeneratedType {
            name: Some(
                name_generated(&options.changeset.name, &model_name, "Changeset"),
            ),
            public: options.changeset.public,
        };
        Ok(
            ModelConfig {
                model: model_name,
                table: copy_names(&options.table),
                fields,
                identifiers,
                preferred_identifier,
                primary_field,
                row,
                changeset,
            },
        )
    }

    /// Whether the field is the primary key of the model.
    pub fn is_primary(&self, field: &ModelField) -> (primary: bool)
        ensures
            primary == (self.primary_field@ == IdentifierView::Field(field.ident@)),
    {
        match &self.primary_field {
            Identifier::Field(ident) => *ident == field.ident,
            Identifier::Compound(_) => false,
        }
    }

    /// The place of the field of the given name, if the model has one: the
    /// first of that name.
    pub fn get(&self, ident: &String) -> (place: Option<usize>)
        ensures
            match place {
                Some(i) => i < self.fields@.len() && self.fields@[i as int].ident@ == ident@
                    && forall|k: int| 0 <= k < i ==> (#[trigger] self.fields@[k]).ident@ != ident@,
                None => forall|k: int|
                    0 <= k < self.fields@.len() ==> (#[trigger] self.fields@[k]).ident@ != ident@,
            },
    {
        let mut i: usize = 0;
        while i < self.fields.len()
            invariant
                i <= self.fields@.len(),
                forall|k: int| 0 <= k < i ==> (#[trigger] self.fields@[k]).ident@ != ident@,
            decreases self.fields@.len() - i,
        {
            if self.fields[i].ident == *ident {
                return Some(i);
            }
            i += 1;
        }
        None
    }

    /// The name of the table: the last segment of its path.
    pub fn table_name(&self) -> (name: Option<String>)
        ensures
            match name {
                Some(name) => self.table@.len() > 0 && name@ == self.table@.last()@,
                None => self.table@.len() == 0,
            },
    {
        if self.table.len() == 0 {
            None
        } else {
            Some(self.table[self.table.len() - 1].clone())
        }
    }
}

} // verus!
