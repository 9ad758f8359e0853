use quent::analyzer::context::{
    ContextAnalysisTarget, ContextId, ContextIndex, ContextInventory,
};

#[test]
fn indexes_contexts_and_entities_by_analysis_target() {
    let analysis_target_id = 1;
    let target_context: u128 = 2;
    let child_context: u128 = 3;
    let child_id = 4;
    let mut index = ContextIndex::default();

    index.add_inventory(
        target_context.into(),
        ContextInventory {
            analysis_targets: vec![ContextAnalysisTarget {
                analysis_target_id,
                entity_ids: vec![analysis_target_id],
            }],
        },
    );
    index.add_inventory(
        child_context.into(),
        ContextInventory {
            analysis_targets: vec![ContextAnalysisTarget {
                analysis_target_id,
                entity_ids: vec![child_id],
            }],
        },
    );

    assert_eq!(
        index.contexts_of_analysis_target(analysis_target_id),
        vec![target_context.into(), child_context.into()]
    );
    assert_eq!(
        index.entities_by_context_of_analysis_target(analysis_target_id),
        vec![
            (target_context.into(), vec![analysis_target_id]),
            (child_context.into(), vec![child_id]),
        ]
    );
}

#[test]
fn contexts_and_entities_are_sorted_and_distinct() {
    let mut index = ContextIndex::default();
    index.add_inventory(
        ContextId(9),
        ContextInventory {
            analysis_targets: vec![
                ContextAnalysisTarget {
                    analysis_target_id: 1,
                    entity_ids: vec![30, 10, 30],
                },
                ContextAnalysisTarget {
                    analysis_target_id: 5,
                    entity_ids: vec![],
                },
            ],
        },
    );
    index.add_inventory(
        ContextId(4),
        ContextInventory {
            analysis_targets: vec![ContextAnalysisTarget {
                analysis_target_id: 1,
                entity_ids: vec![],
            }],
        },
    );
    index.add_inventory(
        ContextId(9),
        ContextInventory {
            analysis_targets: vec![ContextAnalysisTarget {
                analysis_target_id: 1,
                entity_ids: vec![20],
            }],
        },
    );
    assert_eq!(index.analysis_target_ids(), vec![1, 5]);
    assert_eq!(
        index.contexts_of_analysis_target(1),
        vec![ContextId(4), ContextId(9)]
    );
    assert_eq!(
        index.entities_by_context_of_analysis_target(1),
        vec![(ContextId(4), vec![]), (ContextId(9), vec![10, 20, 30])]
    );
    assert_eq!(index.contexts_of_analysis_target(5), vec![ContextId(9)]);
    assert!(index.contexts_of_analysis_target(2).is_empty());
    assert!(index.entities_by_context_of_analysis_target(2).is_empty());
}

#[test]
fn context_id_round_trips_its_uuid() {
    let id: ContextId = 77u128.into();
    assert_eq!(id.into_uuid(), 77);
}
