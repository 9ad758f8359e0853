use quent::analyzer::error::{AnalyzerError, ValidationError};
use quent::analyzer::ref_tree::tree::{children, ref_tree_entity};
use quent::analyzer::ref_tree::{RefTreeEntity, RefTreeNode};
use quent::analyzer::scope::{scope_children, scoped_entity, ScopedEntity};

fn entity(id: u128, parent_id: Option<u128>) -> RefTreeEntity {
    RefTreeEntity { id, parent_id }
}

#[test]
fn constructs_reference_tree() {
    let root_id = 1;
    let child_id = 2;
    let grandchild_id = 3;
    let tree = RefTreeNode::try_new(&[
        entity(grandchild_id, Some(child_id)),
        entity(root_id, None),
        entity(child_id, Some(root_id)),
    ])
    .unwrap();

    assert_eq!(tree.entity_id, root_id);
    assert_eq!(tree.children[0].entity_id, child_id);
    assert_eq!(tree.children[0].children[0].entity_id, grandchild_id);
}

#[test]
fn rejects_duplicate_ids() {
    let id = 1;
    assert!(matches!(
        RefTreeNode::try_new(&[entity(id, None), entity(id, None)]),
        Err(AnalyzerError::Validation(_))
    ));
}

#[test]
fn rejects_missing_parent() {
    assert!(matches!(
        RefTreeNode::try_new(&[entity(1, None), entity(2, Some(3))]),
        Err(AnalyzerError::Validation(_))
    ));
}

#[test]
fn rejects_disconnected_cycle() {
    let first = 2;
    let second = 3;
    assert!(matches!(
        RefTreeNode::try_new(&[
            entity(1, None),
            entity(first, Some(second)),
            entity(second, Some(first)),
        ]),
        Err(AnalyzerError::Validation(_))
    ));
}

#[test]
fn traverses_direct_children() {
    let root_id = 1;
    let child_id = 2;
    let grandchild_id = 3;
    let collection = vec![
        entity(root_id, None),
        entity(child_id, Some(root_id)),
        entity(grandchild_id, Some(child_id)),
    ];

    assert_eq!(children(&collection, root_id), vec![child_id]);
    assert_eq!(
        ref_tree_entity(&collection, grandchild_id).unwrap().id,
        grandchild_id
    );
}

#[test]
fn duplicate_reports_the_first_repeated_id() {
    let r = RefTreeNode::try_new(&[
        entity(1, None),
        entity(2, Some(1)),
        entity(3, Some(1)),
        entity(2, Some(3)),
        entity(3, Some(1)),
    ]);
    assert_eq!(
        r.err(),
        Some(AnalyzerError::Validation(
            ValidationError::DuplicateRefTreeId { id: 2 }
        ))
    );
}

#[test]
fn root_count_is_reported() {
    assert_eq!(
        RefTreeNode::try_new(&[]).err(),
        Some(AnalyzerError::Validation(
            ValidationError::RefTreeRootCount { found: 0 }
        ))
    );
    assert_eq!(
        RefTreeNode::try_new(&[entity(1, None), entity(2, None), entity(3, Some(1))]).err(),
        Some(AnalyzerError::Validation(
            ValidationError::RefTreeRootCount { found: 2 }
        ))
    );
}

#[test]
fn missing_parent_reports_the_first_such_entity() {
    assert_eq!(
        RefTreeNode::try_new(&[entity(1, None), entity(2, Some(7)), entity(3, Some(8))]).err(),
        Some(AnalyzerError::Validation(ValidationError::MissingParent {
            id: 2,
            parent_id: 7
        }))
    );
}

#[test]
fn cycle_reports_an_entity_on_the_cycle() {
    let r = RefTreeNode::try_new(&[
        entity(1, None),
        entity(4, Some(2)),
        entity(2, Some(3)),
        entity(3, Some(2)),
    ]);
    match r {
        Err(AnalyzerError::Validation(ValidationError::RefTreeCycle { id })) => {
            assert!(id == 2 || id == 3)
        }
        other => panic!("unexpected {other:?}"),
    }
    assert!(matches!(
        RefTreeNode::try_new(&[entity(1, None), entity(5, Some(5))]),
        Err(AnalyzerError::Validation(ValidationError::RefTreeCycle { id: 5 }))
    ));
}

#[test]
fn children_keep_input_order() {
    let tree = RefTreeNode::try_new(&[
        entity(9, Some(1)),
        entity(1, None),
        entity(4, Some(1)),
        entity(7, Some(4)),
        entity(2, Some(1)),
    ])
    .unwrap();
    let ids: Vec<u128> = tree.children.iter().map(|c| c.entity_id).collect();
    assert_eq!(ids, vec![9, 4, 2]);
    assert_eq!(tree.children[1].children[0].entity_id, 7);
    assert!(tree.children[0].children.is_empty());
    assert!(tree.children[2].children.is_empty());
}

#[test]
fn single_root_is_a_tree_of_one() {
    let tree = RefTreeNode::try_new(&[entity(42, None)]).unwrap();
    assert_eq!(tree.entity_id, 42);
    assert!(tree.children.is_empty());
}

#[test]
fn unknown_entity_is_an_invalid_id() {
    let collection = vec![entity(1, None)];
    assert_eq!(
        ref_tree_entity(&collection, 2).err(),
        Some(AnalyzerError::InvalidId(2))
    );
    assert!(children(&collection, 2).is_empty());
}

fn collect_ids(node: &RefTreeNode, out: &mut Vec<u128>) {
    out.push(node.entity_id);
    for child in &node.children {
        collect_ids(child, out);
    }
}

#[test]
fn every_entity_appears_in_the_tree() {
    let entities = vec![
        entity(10, Some(3)),
        entity(3, Some(1)),
        entity(1, None),
        entity(8, Some(1)),
        entity(11, Some(10)),
        entity(5, Some(3)),
    ];
    let tree = RefTreeNode::try_new(&entities).unwrap();
    let mut ids = Vec::new();
    collect_ids(&tree, &mut ids);
    ids.sort();
    let mut expected: Vec<u128> = entities.iter().map(|e| e.id).collect();
    expected.sort();
    assert_eq!(ids, expected);
}

#[test]
fn traverses_direct_scope_children() {
    let root_id = 1;
    let child_id = 2;
    let grandchild_id = 3;
    let collection = vec![
        ScopedEntity {
            id: root_id,
            scope_id: None,
        },
        ScopedEntity {
            id: child_id,
            scope_id: Some(root_id),
        },
        ScopedEntity {
            id: grandchild_id,
            scope_id: Some(child_id),
        },
    ];

    assert_eq!(scope_children(&collection, root_id), vec![child_id]);
    assert_eq!(
        scoped_entity(&collection, grandchild_id).unwrap().id,
        grandchild_id
    );
}
