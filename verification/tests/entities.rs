use distiller::entities::combine_entities;
use distiller::entities::format_entities;
use distiller::entities::Entity;
use distiller::entities::EntityData;

fn entity(text: &str, kind: &str, score: u32) -> Entity {
    Entity {
        text: text.to_string(),
        entity_type: kind.to_string(),
        score,
        begin_offset: 0,
        end_offset: text.len() as i32,
    }
}

fn pass(entities: Vec<Entity>) -> Vec<EntityData> {
    vec![EntityData { entities }]
}

#[test]
fn duplicates_collapse_to_the_higher_score() {
    let chunks = vec![pass(vec![entity("Acme", "ORG", 700_000)]), pass(vec![entity("Acme", "ORG", 900_000)])];
    let groups = combine_entities(&chunks);
    assert_eq!(groups.len(), 1);
    assert_eq!(groups[0].entity_type, "ORG");
    assert_eq!(groups[0].entities.len(), 1);
    assert_eq!(groups[0].entities[0].text, "Acme");
    assert_eq!(groups[0].entities[0].score, 900_000);
    assert_eq!(format_entities(&chunks), "### ORG\n- Acme (confidence: 90.0%)");
}

#[test]
fn different_types_are_not_merged() {
    let chunks = vec![pass(vec![entity("Jordan", "PERSON", 800_000), entity("Jordan", "LOCATION", 600_000)])];
    let groups = combine_entities(&chunks);
    assert_eq!(groups.len(), 2);
    assert_eq!(groups[0].entity_type, "PERSON");
    assert_eq!(groups[1].entity_type, "LOCATION");
    assert_eq!(
        format_entities(&chunks),
        "### PERSON\n- Jordan (confidence: 80.0%)\n\n### LOCATION\n- Jordan (confidence: 60.0%)"
    );
}

#[test]
fn first_seen_wins_a_tie() {
    let mut first = entity("Acme", "ORG", 500_000);
    first.begin_offset = 7;
    let mut second = entity("Acme", "ORG", 500_000);
    second.begin_offset = 42;
    let groups = combine_entities(&[pass(vec![first]), pass(vec![second])]);
    assert_eq!(groups[0].entities.len(), 1);
    assert_eq!(groups[0].entities[0].begin_offset, 7);
}

#[test]
fn groups_are_sorted_by_falling_confidence() {
    let chunks = vec![
        pass(vec![entity("a", "ORG", 100_000), entity("b", "ORG", 999_949), entity("x", "DATE", 5)]),
        pass(vec![entity("c", "ORG", 500_000), entity("d", "ORG", 999_949), entity("a", "ORG", 100_001)]),
    ];
    assert_eq!(
        format_entities(&chunks),
        "### ORG\n- b (confidence: 100.0%)\n- d (confidence: 100.0%)\n- c (confidence: 50.0%)\n- a (confidence: 10.0%)\n\n### DATE\n- x (confidence: 0.0%)"
    );
}

#[test]
fn nothing_detected() {
    let none: Vec<Vec<EntityData>> = Vec::new();
    assert_eq!(format_entities(&none), "No entities detected");
    assert_eq!(format_entities(&[pass(vec![]), vec![]]), "No entities detected");
}
