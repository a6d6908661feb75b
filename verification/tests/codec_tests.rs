use game_core::codec::{parse_definition, serialize_definition};
use game_core::crops::{example_definition, CropDefinition, CropStage, CropStatus};
use game_core::items::{ItemDrop, ItemId};
use game_core::range::Range;

fn stage(model: &str, min: u32, max: u32, begin: Option<CropStatus>) -> CropStage {
    CropStage {
        model: model.to_string(),
        duration: Range { min, max },
        begin_status: begin,
    }
}

#[test]
fn example_definition_serializes_to_canonical_text() {
    let text = serialize_definition(&example_definition());
    let expected = "(id:\"Example\",stages:[\
        (model:\"::crate-color.glb\",duration:(min:1,max:2),begin_status:Some(Growing)),\
        (model:\"::crate-color.glb\",duration:(min:1,max:2),begin_status:None),\
        (model:\"::crate-color.glb\",duration:(min:1,max:2),begin_status:Some(\
        Fruiting(model:\"::crate-color.glb\",drops:[(item:\"test\",amount:(min:1,max:3))])\
        ))])";
    assert_eq!(text, expected);
}

#[test]
fn round_trip_preserves_every_field() {
    // Covers all four status variants, empty and non-empty drop lists, and
    // characters that need escaping.
    let def = CropDefinition {
        id: "we \"like\" back\\slashes".to_string(),
        stages: vec![
            stage("grow.glb", 0, 4294967295, Some(CropStatus::Growing)),
            stage("carry.glb", 2, 3, None),
            stage(
                "fruit.glb",
                1,
                1,
                Some(CropStatus::Fruiting {
                    model: "fruit-override.glb".to_string(),
                    drops: vec![
                        ItemDrop {
                            item: ItemId("berry".to_string()),
                            amount: Range { min: 1, max: 3 },
                        },
                        ItemDrop {
                            item: ItemId("leaf".to_string()),
                            amount: Range { min: 0, max: 0 },
                        },
                    ],
                }),
            ),
            stage(
                "seed.glb",
                9,
                9,
                Some(CropStatus::Seeding {
                    model: "seed-override.glb".to_string(),
                    drops: vec![],
                }),
            ),
            stage("dead.glb", 1, 2, Some(CropStatus::Dead)),
        ],
    };
    let text = serialize_definition(&def);
    let parsed = parse_definition(&text).unwrap();
    assert_eq!(parsed, def);
}

#[test]
fn round_trip_of_the_example_definition() {
    let def = example_definition();
    let parsed = parse_definition(&serialize_definition(&def)).unwrap();
    assert_eq!(parsed, def);
}

#[test]
fn parses_hand_written_text() {
    let text = "(id:\"corn\",stages:[(model:\"a\",duration:(min:0,max:0),begin_status:Some(Dead))])";
    let def = parse_definition(text).unwrap();
    assert_eq!(def.id, "corn");
    assert_eq!(def.stages.len(), 1);
    assert_eq!(def.stages[0].model, "a");
    assert_eq!(def.stages[0].duration, Range { min: 0, max: 0 });
    assert_eq!(def.stages[0].begin_status, Some(CropStatus::Dead));
}

#[test]
fn parses_empty_stage_list_text() {
    let def = parse_definition("(id:\"bare\",stages:[])").unwrap();
    assert_eq!(def.id, "bare");
    assert!(def.stages.is_empty());
}

#[test]
fn malformed_texts_are_rejected() {
    for text in [
        "",
        "(id:",
        "(id:\"x\")",
        "(id:\"x\",stages:[)",
        "(id:\"x\",stages:[(model:\"m\",duration:(min:1,max:2),begin_status:Nope)])",
        "(id:\"x\",stages:[(model:\"m\",duration:(min:1,max:2),begin_status:None)]",
        "(id:\"x\",stages:[(model:\"m\",duration:(min:1),begin_status:None)])",
        "(id:\"x\",stages:[(model:\"m\",duration:(min:1,max:2),begin_status:None)])trailing",
        "(id:\"unterminated,stages:[])",
    ] {
        assert!(parse_definition(text).is_err(), "accepted: {text}");
    }
}

#[test]
fn unordered_bounds_are_rejected() {
    let text = "(id:\"x\",stages:[(model:\"m\",duration:(min:2,max:1),begin_status:None)])";
    assert!(parse_definition(text).is_err());
}

#[test]
fn numbers_out_of_range_are_rejected() {
    let too_big = "(id:\"x\",stages:[(model:\"m\",duration:(min:4294967296,max:4294967296),begin_status:None)])";
    assert!(parse_definition(too_big).is_err());
    let leading_zero = "(id:\"x\",stages:[(model:\"m\",duration:(min:01,max:2),begin_status:None)])";
    assert!(parse_definition(leading_zero).is_err());
}

#[test]
fn boundary_number_round_trips() {
    let def = CropDefinition {
        id: "limits".to_string(),
        stages: vec![stage("m", 0, 4294967295, None)],
    };
    let text = serialize_definition(&def);
    assert!(text.contains("(min:0,max:4294967295)"));
    assert_eq!(parse_definition(&text).unwrap(), def);
}

#[test]
fn escaped_strings_round_trip() {
    let def = CropDefinition {
        id: "q\"q and b\\b".to_string(),
        stages: vec![],
    };
    let text = serialize_definition(&def);
    assert_eq!(text, "(id:\"q\\\"q and b\\\\b\",stages:[])");
    assert_eq!(parse_definition(&text).unwrap(), def);
}
