use quent::analyzer::error::{AnalyzerError, IncompleteEntity, ValidationError};
use quent::analyzer::resource::{
    ResourceCapacities, RtResourceBuilder, RtResourceGroup, RtResourceTransition,
};
use quent::analyzer::resource_tree::ResourceTreeNode;

fn builder() -> RtResourceBuilder {
    let mut builder = RtResourceBuilder::try_new(1).unwrap();
    builder.set_type_label("memory");
    builder.set_instance_name(Some("host memory".to_owned()));
    builder.set_parent_group_id(2);
    builder
}

#[test]
fn resource_does_not_require_an_exit_transition() {
    let mut builder = builder();
    builder.push(RtResourceTransition::Init(10));
    builder.push(RtResourceTransition::Operating(
        20,
        ResourceCapacities(Vec::new()),
    ));

    let resource = builder.try_build().unwrap();

    assert_eq!(resource.len(), 1);
    assert_eq!(resource.last().unwrap().name(), "init");
    assert_eq!(resource.last_transition().unwrap().name(), "operating");
}

#[test]
fn resource_with_only_init_is_incomplete_but_valid() {
    let mut builder = builder();
    builder.push(RtResourceTransition::Init(10));

    let resource = builder.try_build().unwrap();

    assert!(resource.is_empty());
    assert!(resource.first().is_none());
    assert!(resource.last().is_none());
    assert_eq!(resource.last_transition().unwrap().name(), "init");
}

#[test]
fn transitions_are_kept_in_time_order() {
    let mut builder = builder();
    builder.push(RtResourceTransition::Exit(50));
    builder.push(RtResourceTransition::Operating(20, ResourceCapacities(vec![8])));
    builder.push(RtResourceTransition::Init(10));
    builder.push(RtResourceTransition::Resizing(20));
    let resource = builder.try_build().unwrap();
    let names: Vec<&str> = resource.transitions.iter().map(|t| t.name()).collect();
    assert_eq!(names, vec!["init", "operating", "resizing", "exit"]);
    let times: Vec<u64> = resource.transitions.iter().map(|t| t.timestamp()).collect();
    assert_eq!(times, vec![10, 20, 20, 50]);
    assert_eq!(resource.len(), 3);
    let second = resource.state(1).unwrap();
    assert_eq!(second.name(), "operating");
    assert_eq!(second.span(), (20, 20));
    assert_eq!(resource.last().unwrap().span(), (20, 50));
    assert!(resource.state(3).is_none());
    assert_eq!(resource.transition(0), Some(&RtResourceTransition::Init(10)));
    assert!(resource.transition(4).is_none());
}

#[test]
fn build_errors_come_in_order() {
    assert_eq!(
        RtResourceBuilder::try_new(0).err(),
        Some(AnalyzerError::InvalidId(0))
    );
    let b = RtResourceBuilder::try_new(7).unwrap();
    assert_eq!(
        b.try_build().err(),
        Some(AnalyzerError::Validation(ValidationError::NoTransitions {
            resource_id: 7
        }))
    );
    let mut b = RtResourceBuilder::try_new(7).unwrap();
    b.push(RtResourceTransition::Operating(5, ResourceCapacities(vec![])));
    assert_eq!(
        b.try_build().err(),
        Some(AnalyzerError::Validation(ValidationError::FirstStateNotInit {
            resource_id: 7
        }))
    );
    let mut b = RtResourceBuilder::try_new(7).unwrap();
    b.push(RtResourceTransition::Init(5));
    assert_eq!(
        b.try_build().err(),
        Some(AnalyzerError::IncompleteEntity(
            IncompleteEntity::MissingInstanceName { resource_id: 7 }
        ))
    );
    let mut b = RtResourceBuilder::try_new(7).unwrap();
    b.push(RtResourceTransition::Init(5));
    b.set_instance_name(Some("gpu0".to_owned()));
    assert_eq!(
        b.try_build().err(),
        Some(AnalyzerError::IncompleteEntity(
            IncompleteEntity::MissingTypeName { resource_id: 7 }
        ))
    );
    let mut b = RtResourceBuilder::try_new(7).unwrap();
    b.push(RtResourceTransition::Init(5));
    b.set_instance_name(Some("gpu0".to_owned()));
    b.set_type_label("gpu");
    assert_eq!(
        b.try_build().err(),
        Some(AnalyzerError::IncompleteEntity(
            IncompleteEntity::MissingParentGroup { resource_id: 7 }
        ))
    );
}

#[test]
fn resource_group_rejects_the_nil_id() {
    assert_eq!(
        RtResourceGroup::try_new(0, "t".to_owned(), "i".to_owned(), None).err(),
        Some(AnalyzerError::InvalidId(0))
    );
    let g = RtResourceGroup::try_new(3, "node".to_owned(), "n0".to_owned(), Some(1)).unwrap();
    assert_eq!(g.id, 3);
    assert_eq!(g.type_label, "node");
    assert_eq!(g.instance_name, "n0");
    assert_eq!(g.parent_group_id, Some(1));
}

fn node(entity_id: u128, is_resource: bool, children: Vec<ResourceTreeNode>) -> ResourceTreeNode {
    ResourceTreeNode {
        entity_id,
        is_resource,
        children,
    }
}

#[test]
fn iterates_resources() {
    let first_resource_id = 1;
    let second_resource_id = 2;
    let group_id = 3;
    let root_id = 4;
    let tree = node(
        root_id,
        false,
        vec![
            node(first_resource_id, true, vec![]),
            node(group_id, false, vec![node(second_resource_id, true, vec![])]),
        ],
    );

    assert_eq!(
        tree.iter_resource_ids(),
        vec![first_resource_id, second_resource_id]
    );
}

#[test]
fn resource_may_have_resource_children() {
    let parent_resource_id = 1;
    let child_resource_id = 2;
    let tree = node(
        parent_resource_id,
        true,
        vec![node(child_resource_id, true, vec![])],
    );

    assert_eq!(
        tree.iter_resource_ids(),
        vec![parent_resource_id, child_resource_id]
    );
}

#[test]
fn finds_entities() {
    let root_id = 1;
    let child_id = 2;
    let tree = node(root_id, false, vec![node(child_id, true, vec![])]);

    assert_eq!(tree.find(child_id).unwrap().entity_id, child_id);
    assert!(tree.find(3).is_none());
}

#[test]
fn find_prefers_the_shallowest_match() {
    // Id 5 appears deep in the first subtree and shallow in the second.
    let tree = node(
        1,
        false,
        vec![
            node(2, false, vec![node(5, true, vec![node(9, true, vec![])])]),
            node(5, false, vec![]),
        ],
    );
    let found = tree.find(5).unwrap();
    assert!(!found.is_resource);
    assert!(found.children.is_empty());
    assert_eq!(tree.find(9).unwrap().entity_id, 9);
    assert_eq!(tree.find(1).unwrap().entity_id, 1);
}

#[test]
fn resource_ids_come_in_preorder() {
    let tree = node(
        1,
        true,
        vec![
            node(2, false, vec![node(3, true, vec![]), node(4, true, vec![])]),
            node(5, true, vec![node(6, false, vec![node(7, true, vec![])])]),
        ],
    );
    assert_eq!(tree.iter_resource_ids(), vec![1, 3, 4, 5, 7]);
    assert!(node(1, false, vec![]).iter_resource_ids().is_empty());
}

#[test]
fn states_span_consecutive_transitions() {
    let mut builder = builder();
    builder.push(RtResourceTransition::Init(1));
    builder.push(RtResourceTransition::Operating(4, ResourceCapacities(vec![1, 2])));
    builder.push(RtResourceTransition::Exit(9));
    let resource = builder.try_build().unwrap();
    let states: Vec<(&str, (u64, u64))> = resource
        .states()
        .iter()
        .map(|s| (s.name(), s.span()))
        .collect();
    assert_eq!(states, vec![("init", (1, 4)), ("operating", (4, 9))]);
    assert_eq!(resource.first().unwrap().span(), (1, 4));
}
