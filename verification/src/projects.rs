//! Records of projects: their tags, the orders in which they are listed, and
//! which stored image goes when a project changes or goes.
use vstd::prelude::*;
use vstd::string::StringExecFns;

verus! {

/// The tags of a project.
#[derive(Debug, Clone, Default, PartialEq, Eq)]
pub struct Tags(Vec<String>);

/// The texts of a list of strings.
pub open spec fn texts(values: Seq<String>) -> Seq<Seq<char>> {
    Seq::new(values.len(), |i: int| values[i]@)
}

/// The texts of the values that are there, in their order.
pub open spec fn present(values: Seq<Option<String>>) -> Seq<Seq<char>>
    decreases values.len(),
{
    if values.len() == 0 {
        Seq::empty()
    } else {
        let before = present(values.drop_last());
        match values.last() {
            Some(text) => before.push(text@),
            None => before,
        }
    }
}

/// The texts of a list of values that are all there.
pub open spec fn all_present(values: Seq<Option<String>>) -> Seq<Option<Seq<char>>> {
    Seq::new(
        values.len(),
        |i: int|
            match values[i] {
                Some(text) => Some(text@),
                None => None,
            },
    )
}

impl View for Tags {
    type V = Seq<Seq<char>>;

    closed spec fn view(&self) -> Seq<Seq<char>> {
        texts(self.0@)
    }
}

impl Tags {
    pub fn new(value: Vec<String>) -> (tags: Self)
        ensures
            tags@ == texts(value@),
    {
        Self(value)
    }

    /// The tags of a row in which a tag may be missing: those that are there.
    pub fn from_row(value: Vec<Option<String>>) -> (tags: Self)
        ensures
            tags@ == present(value@),
    {
        let mut kept: Vec<String> = Vec::new();
        let mut i: usize = 0;
        while i < value.len()
            invariant
                i <= value@.len(),
                texts(kept@) == present(value@.take(i as int)),
            decreases value@.len() - i,
        {
            assert(value@.take(i + 1).drop_last() == value@.take(i as int));
            match &value[i] {
                Some(text) => {
                    kept.push(text.clone());
                    assert(texts(kept@) =~= present(value@.take(i as int)).push(text@));
                },
                None => {},
            }
            i += 1;
        }
        assert(value@.take(i as int) == value@);
        Self(kept)
    }

    /// The tags as the values of a row: each of them there.
    pub fn into_row(self) -> (row: Vec<Option<String>>)
        ensures
            all_present(row@) == self@.map_values(|text: Seq<char>| Some(text)),
    {
        let mut row: Vec<Option<String>> = Vec::new();
        let mut i: usize = 0;
        while i < self.0.len()
            invariant
                i <= self.0@.len(),
                row@.len() == i,
                forall|k: int| 0 <= k < i ==> #[trigger] row@[k] == Some(self.0@[k]),
            decreases self.0@.len() - i,
        {
            row.push(Some(self.0[i].clone()));
            i += 1;
        }
        assert(all_present(row@) =~= self@.map_values(|text: Seq<char>| Some(text)));
        row
    }
}

/// The tags of a row in which a tag may be missing: those that are there.
impl From<Vec<Option<String>>> for Tags {
    fn from(value: Vec<Option<String>>) -> (tags: Tags)
        ensures
            tags@ == present(value@),
    {
        Tags::from_row(value)
    }
}

/// What `from` returns is stated in its own contract, over the texts of the
/// tags: no one value is named as the result.
impl vstd::std_specs::convert::FromSpecImpl<Vec<Option<String>>> for Tags {
    open spec fn obeys_from_spec() -> bool {
        false
    }

    open spec fn from_spec(value: Vec<Option<String>>) -> Tags {
        arbitrary()
    }
}

/// The tags as the values of a row: each of them there.
impl From<Tags> for Vec<Option<String>> {
    fn from(value: Tags) -> (row: Vec<Option<String>>)
        ensures
            all_present(row@) == value@.map_values(|text: Seq<char>| Some(text)),
    {
        value.into_row()
    }
}

/// What `from` returns is stated in its own contract, over the texts of the
/// values: no one value is named as the result.
impl vstd::std_specs::convert::FromSpecImpl<Tags> for Vec<Option<String>> {
    open spec fn obeys_from_spec() -> bool {
        false
    }

    open spec fn from_spec(value: Tags) -> Vec<Option<String>> {
        arbitrary()
    }
}

/// The orders in which projects are listed.
#[derive(Debug, Clone, Copy, PartialEq, Eq, Structural)]
pub enum ProjectOrdering {
    NameAsc,
    NameDesc,
    CreationDateAsc,
    CreationDateDesc,
    LastModifiedDesc,
    LastModifiedAsc,
}

impl ProjectOrdering {
    /// The clause by which a query sorts projects in this order.
    pub open spec fn sql(self) -> Seq<char> {
        match self {
            ProjectOrdering::NameAsc => "LOWER(t.name) ASC"@,
            ProjectOrdering::NameDesc => " LOWER(t.name) DESC"@,
            ProjectOrdering::CreationDateAsc => "creation_date"@,
            ProjectOrdering::CreationDateDesc => "creation_date DESC"@,
            ProjectOrdering::LastModifiedAsc => "last_modification"@,
            ProjectOrdering::LastModifiedDesc => "last_modification DESC"@,
        }
    }

    pub fn to_sql(&self) -> (clause: &'static str)
        ensures
            clause@ == self.sql(),
    {
        match *self {
            ProjectOrdering::NameAsc => "LOWER(t.name) ASC",
            ProjectOrdering::NameDesc => " LOWER(t.name) DESC",
            ProjectOrdering::CreationDateAsc => "creation_date",
            ProjectOrdering::CreationDateDesc => "creation_date DESC",
            ProjectOrdering::LastModifiedAsc => "last_modification",
            ProjectOrdering::LastModifiedDesc => "last_modification DESC",
        }
    }
}

impl Default for ProjectOrdering {
    fn default() -> (order: Self)
        ensures
            order == ProjectOrdering::LastModifiedDesc,
    {
        ProjectOrdering::LastModifiedDesc
    }
}

/// The query that lists all projects in the given order.
pub open spec fn listing(order: ProjectOrdering) -> Seq<char> {
    "SELECT t.* FROM project as t ORDER BY "@ + order.sql()
}

/// Writes the query that lists all projects in the given order.
pub fn list_query(order: ProjectOrdering) -> (query: String)
    ensures
        query@ == listing(order),
{
    let mut query = String::from_str("SELECT t.* FROM project as t ORDER BY ");
    query.append(order.to_sql());
    query
}

/// The stored image that goes with an update of a project: the image that
/// the project had, unless the update names that very image as the new one.
/// An update that leaves the image alone names none.
pub open spec fn pruned_by_update(old_image: Option<i64>, new_image: Option<Option<i64>>) -> Option<
    i64,
> {
    if new_image == Some(old_image) {
        None
    } else {
        old_image
    }
}

/// Decides which stored image to delete once a project is updated.
pub fn image_to_prune(old_image: Option<i64>, new_image: Option<Option<i64>>) -> (image: Option<
    i64,
>)
    ensures
        image == pruned_by_update(old_image, new_image),
{
    let unchanged = match new_image {
        Some(named) => match (named, old_image) {
            (Some(a), Some(b)) => a == b,
            (None, None) => true,
            _ => false,
        },
        None => false,
    };
    if unchanged {
        None
    } else {
        old_image
    }
}

/// What the store answered to the last request of an update or a removal.
#[derive(Debug, Clone, Copy, PartialEq, Eq, Structural)]
pub enum StoreEvent {
    /// Nothing was asked yet.
    Started,
    /// The project was found, with this image.
    Found { image: Option<i64> },
    /// There is no project under the identifier.
    Missing,
    /// The project was written, or removed.
    Done,
    /// The request to delete an image came back, however it went.
    Pruned,
}

/// What to ask of the store next.
#[derive(Debug, Clone, Copy, PartialEq, Eq, Structural)]
pub enum StoreAction {
    /// Read the project.
    Retrieve,
    /// Write the changes, or remove the project.
    Apply,
    /// Delete a stored image, and do not mind if that fails: another project
    /// may still use it.
    DeleteImage { image: i64 },
    /// Hand back the result.
    Finish,
    /// Fail, because the project does not exist.
    FailNotFound,
    /// Stop, because the answer is none to what was asked.
    Abort,
}

/// Where an update or a removal of a project stands.
#[derive(Debug, Clone, Copy, PartialEq, Eq, Structural)]
pub enum PruneState {
    /// Nothing was asked yet.
    Idle,
    /// The project is being read.
    Retrieving,
    /// The project is being written or removed; `image` goes afterwards.
    Applying { image: Option<i64> },
    /// The image is being deleted.
    Pruning,
    /// All is done, or has failed.
    Closed,
}

/// The image that goes once the project was found with `image`: for an
/// update, the one that `pruned_by_update` names; for a removal, the image of
/// the project.
pub open spec fn image_after(
    image: Option<i64>,
    removal: bool,
    new_image: Option<Option<i64>>,
) -> Option<i64> {
    if removal {
        image
    } else {
        pruned_by_update(image, new_image)
    }
}

/// The state and the request that follow an answer of the store.
///
/// The project is read first and must exist; then it is written or removed,
/// and must still exist; then the image that goes is deleted, if there is
/// one. Where the store finds no project, the flow fails; an answer that
/// belongs to no request of the state stops it.
pub open spec fn next_step(
    state: PruneState,
    event: StoreEvent,
    removal: bool,
    new_image: Option<Option<i64>>,
) -> (PruneState, StoreAction) {
    match (state, event) {
        (PruneState::Idle, StoreEvent::Started) => (PruneState::Retrieving, StoreAction::Retrieve),
        (PruneState::Retrieving, StoreEvent::Found { image }) => (
            PruneState::Applying { image: image_after(image, removal, new_image) },
            StoreAction::Apply,
        ),
        (PruneState::Applying { image: Some(image) }, StoreEvent::Done) => (
            PruneState::Pruning,
            StoreAction::DeleteImage { image },
        ),
        (PruneState::Applying { image: None }, StoreEvent::Done) => (
            PruneState::Closed,
            StoreAction::Finish,
        ),
        (PruneState::Pruning, StoreEvent::Pruned) => (PruneState::Closed, StoreAction::Finish),
        (PruneState::Retrieving, StoreEvent::Missing) => (
            PruneState::Closed,
            StoreAction::FailNotFound,
        ),
        (PruneState::Applying { image: _ }, StoreEvent::Missing) => (
            PruneState::Closed,
            StoreAction::FailNotFound,
        ),
        _ => (PruneState::Closed, StoreAction::Abort),
    }
}

/// Decides what to ask of the store next, for an update (`removal` is false,
/// and `new_image` is the image that the update names, if it names one) or
/// for a removal of a project.
pub fn step(state: PruneState, event: StoreEvent, removal: bool, new_image: Option<Option<i64>>) -> (next:
    (PruneState, StoreAction))
    ensures
        next == next_step(state, event, removal, new_image),
{
    match (state, event) {
        (PruneState::Idle, StoreEvent::Started) => (PruneState::Retrieving, StoreAction::Retrieve),
        (PruneState::Retrieving, StoreEvent::Found { image }) => {
            let goes = if removal {
                image
            } else {
                image_to_prune(image, new_image)
            };
            (PruneState::Applying { image: goes }, StoreAction::Apply)
        },
        (PruneState::Applying { image: Some(image) }, StoreEvent::Done) => (
            PruneState::Pruning,
            StoreAction::DeleteImage { image },
        ),
        (PruneState::Applying { image: None }, StoreEvent::Done) => (
            PruneState::Closed,
            StoreAction::Finish,
        ),
        (PruneState::Pruning, StoreEvent::Pruned) => (PruneState::Closed, StoreAction::Finish),
        (PruneState::Retrieving, StoreEvent::Missing) => (
            PruneState::Closed,
            StoreAction::FailNotFound,
        ),
        (PruneState::Applying { image: _ }, StoreEvent::Missing) => (
            PruneState::Closed,
            StoreAction::FailNotFound,
        ),
        _ => (PruneState::Closed, StoreAction::Abort),
    }
}

} // verus!
