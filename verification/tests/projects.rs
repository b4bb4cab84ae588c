use editoast::projects::{
    image_to_prune, list_query, step, ProjectOrdering, PruneState, StoreAction, StoreEvent, Tags,
};

fn strings(values: &[&str]) -> Vec<String> {
    values.iter().map(|s| s.to_string()).collect()
}

#[test]
fn tags_keep_their_values() {
    let tags = Tags::new(strings(&["rail", "", "north"]));
    assert_eq!(
        tags.into_row(),
        vec![Some("rail".to_string()), Some(String::new()), Some("north".to_string())]
    );
}

#[test]
fn tags_of_a_row_leave_out_what_is_missing() {
    let row = vec![None, Some("a".to_string()), None, Some("b".to_string()), None];
    assert_eq!(Tags::from_row(row), Tags::new(strings(&["a", "b"])));
    assert_eq!(Tags::from_row(vec![None, None]), Tags::new(vec![]));
    assert_eq!(Tags::from_row(vec![]), Tags::default());
}

#[test]
fn tags_survive_a_round_trip_through_a_row() {
    let tags = Tags::new(strings(&["x", "y", "x"]));
    assert_eq!(Tags::from_row(tags.clone().into_row()), tags);
}

#[test]
fn orderings_have_their_clauses() {
    assert_eq!(ProjectOrdering::NameAsc.to_sql(), "LOWER(t.name) ASC");
    assert_eq!(ProjectOrdering::NameDesc.to_sql(), " LOWER(t.name) DESC");
    assert_eq!(ProjectOrdering::CreationDateAsc.to_sql(), "creation_date");
    assert_eq!(ProjectOrdering::CreationDateDesc.to_sql(), "creation_date DESC");
    assert_eq!(ProjectOrdering::LastModifiedAsc.to_sql(), "last_modification");
    assert_eq!(ProjectOrdering::LastModifiedDesc.to_sql(), "last_modification DESC");
}

#[test]
fn default_ordering_is_last_modified_first() {
    assert_eq!(ProjectOrdering::default(), ProjectOrdering::LastModifiedDesc);
}

#[test]
fn list_query_ends_with_the_clause() {
    assert_eq!(
        list_query(ProjectOrdering::NameAsc),
        "SELECT t.* FROM project as t ORDER BY LOWER(t.name) ASC"
    );
    assert_eq!(
        list_query(ProjectOrdering::LastModifiedDesc),
        "SELECT t.* FROM project as t ORDER BY last_modification DESC"
    );
}

#[test]
fn image_goes_unless_the_update_names_it_again() {
    assert_eq!(image_to_prune(Some(4), Some(Some(4))), None);
    assert_eq!(image_to_prune(Some(4), Some(Some(5))), Some(4));
    assert_eq!(image_to_prune(Some(4), Some(None)), Some(4));
    assert_eq!(image_to_prune(Some(4), None), Some(4));
    assert_eq!(image_to_prune(None, Some(Some(5))), None);
    assert_eq!(image_to_prune(None, Some(None)), None);
    assert_eq!(image_to_prune(None, None), None);
}

#[test]
fn update_reads_writes_and_prunes() {
    let new_image = Some(Some(9));
    let (state, action) = step(PruneState::Idle, StoreEvent::Started, false, new_image);
    assert_eq!((state, action), (PruneState::Retrieving, StoreAction::Retrieve));
    let (state, action) = step(state, StoreEvent::Found { image: Some(3) }, false, new_image);
    assert_eq!((state, action), (PruneState::Applying { image: Some(3) }, StoreAction::Apply));
    let (state, action) = step(state, StoreEvent::Done, false, new_image);
    assert_eq!((state, action), (PruneState::Pruning, StoreAction::DeleteImage { image: 3 }));
    let (state, action) = step(state, StoreEvent::Pruned, false, new_image);
    assert_eq!((state, action), (PruneState::Closed, StoreAction::Finish));
}

#[test]
fn update_that_keeps_the_image_prunes_nothing() {
    let new_image = Some(Some(3));
    let (state, action) =
        step(PruneState::Retrieving, StoreEvent::Found { image: Some(3) }, false, new_image);
    assert_eq!((state, action), (PruneState::Applying { image: None }, StoreAction::Apply));
    assert_eq!(
        step(state, StoreEvent::Done, false, new_image),
        (PruneState::Closed, StoreAction::Finish)
    );
}

#[test]
fn removal_prunes_the_image_of_the_project() {
    let (state, action) =
        step(PruneState::Retrieving, StoreEvent::Found { image: Some(3) }, true, Some(Some(3)));
    assert_eq!((state, action), (PruneState::Applying { image: Some(3) }, StoreAction::Apply));
    let (state, action) =
        step(PruneState::Retrieving, StoreEvent::Found { image: None }, true, None);
    assert_eq!((state, action), (PruneState::Applying { image: None }, StoreAction::Apply));
}

#[test]
fn missing_project_fails_the_flow() {
    assert_eq!(
        step(PruneState::Retrieving, StoreEvent::Missing, false, None),
        (PruneState::Closed, StoreAction::FailNotFound)
    );
    assert_eq!(
        step(PruneState::Applying { image: Some(1) }, StoreEvent::Missing, true, None),
        (PruneState::Closed, StoreAction::FailNotFound)
    );
}

#[test]
fn unfit_answer_stops_the_flow() {
    assert_eq!(
        step(PruneState::Idle, StoreEvent::Done, false, None),
        (PruneState::Closed, StoreAction::Abort)
    );
    assert_eq!(
        step(PruneState::Closed, StoreEvent::Started, false, None),
        (PruneState::Closed, StoreAction::Abort)
    );
    assert_eq!(
        step(PruneState::Pruning, StoreEvent::Missing, false, None),
        (PruneState::Closed, StoreAction::Abort)
    );
}

#[test]
fn tags_convert_from_and_into_rows() {
    let row = vec![Some("a".to_string()), None, Some("b".to_string())];
    let tags = Tags::from(row);
    assert_eq!(tags, Tags::new(strings(&["a", "b"])));
    let back: Vec<Option<String>> = tags.into();
    assert_eq!(back, vec![Some("a".to_string()), Some("b".to_string())]);
}
