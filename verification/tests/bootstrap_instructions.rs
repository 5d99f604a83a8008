use jam_bootstrap_service_common::{test_key_vals, Instruction};
use jam_services::bootstrap::{
    accumulate_actions, random_storage_count_key, refine_actions, split_payload, HostAction,
    RefineAction, RefineInstruction,
};
use jam_types::Encode;

#[test]
fn payload_splits_into_instructions() {
    let mut payload = Instruction::Export { data: vec![vec![1, 2]] }.encode();
    payload.extend(Instruction::Checkpoint.encode());
    payload.extend(Instruction::Import { items: vec![(3, 4)] }.encode());
    let insts = split_payload(&payload).expect("payload decodes");
    assert_eq!(insts.len(), 3);
    assert!(matches!(&insts[0], RefineInstruction::Export { data } if data == &vec![vec![1u8, 2]]));
    assert!(matches!(&insts[1], RefineInstruction::Other(Instruction::Checkpoint)));
    assert!(matches!(&insts[2], RefineInstruction::Import { items } if items == &vec![(3u64, 4u64)]));
}

#[test]
fn empty_payload_has_no_instructions() {
    assert_eq!(split_payload(&[]).map(|v| v.len()), Some(0));
}

#[test]
fn payload_that_does_not_decode_is_refused() {
    let mut payload = Instruction::Checkpoint.encode();
    payload.push(0xff);
    assert!(split_payload(&payload).is_none());
    assert!(refine_actions(&payload).is_none());
}

#[test]
fn refine_actions_per_instruction() {
    let mut payload = Instruction::Export { data: vec![vec![1], vec![2], vec![3]] }.encode();
    payload.extend(
        Instruction::RandomStorageRefine(test_key_vals::Input { seed: 9, nb_items: 4 }).encode(),
    );
    payload.extend(Instruction::Zombify { ejector: 5 }.encode());
    let actions = refine_actions(&payload).expect("payload decodes");
    assert_eq!(actions.len(), 3);
    assert!(matches!(&actions[0], RefineAction::Export { count: 3, .. }));
    assert!(matches!(&actions[1], RefineAction::EmitRandomStorage { keys } if keys.len() == 4));
    assert!(matches!(
        &actions[2],
        RefineAction::PassThrough(Instruction::Zombify { ejector: 5 })
    ));
}

#[test]
fn accumulate_actions_per_instruction() {
    let key = [7u8; 32];
    let output = vec![
        Instruction::Exported { count: 5 },
        Instruction::LookedUp { data: None },
        Instruction::LookedUp { data: Some(vec![1, 2, 3]) },
        Instruction::Imported { data: vec![vec![9]] },
        Instruction::Zombify { ejector: 7 },
        Instruction::DeleteItems { storage_items: vec![vec![1], vec![2]] },
        Instruction::RandomStorageAccumulate(Ok(test_key_vals::Output {
            items: vec![test_key_vals::Item { key }],
        })),
        Instruction::RandomStorageAccumulate(Err(())),
        Instruction::Panic,
        Instruction::Checkpoint,
    ]
    .encode();
    let actions = accumulate_actions(&output).expect("output decodes");
    assert_eq!(actions.len(), 10);
    assert!(matches!(&actions[0], HostAction::Store { key, value }
        if key == &b"exported".to_vec() && value == &vec![5, 0, 0, 0, 0, 0, 0, 0]));
    assert!(matches!(&actions[1], HostAction::Nothing));
    assert!(matches!(&actions[2], HostAction::Store { key, value }
        if key == &b"looked_up".to_vec() && value == &vec![1, 2, 3]));
    let imported = vec![vec![9u8]].encode();
    assert!(matches!(&actions[3], HostAction::Store { key, value }
        if key == &b"imported".to_vec() && value == &imported));
    assert!(matches!(&actions[4], HostAction::Zombify { ejector: 7 }));
    assert!(matches!(&actions[5], HostAction::Delete { keys } if keys.len() == 2));
    assert!(matches!(&actions[6], HostAction::RandomStorage { keys } if keys == &vec![key]));
    assert!(matches!(&actions[7], HostAction::Nothing));
    assert!(matches!(&actions[8], HostAction::Panic));
    assert!(matches!(&actions[9], HostAction::Host(Instruction::Checkpoint)));
}

#[test]
fn accumulate_output_that_does_not_decode_is_refused() {
    assert!(accumulate_actions(&[4, 0xff]).is_none());
}

#[test]
fn count_key() {
    assert_eq!(random_storage_count_key(), b"count_random_storage".to_vec());
}
