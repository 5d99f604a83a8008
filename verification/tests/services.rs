use jam_types::Encode;
use jam_services::bootstrap::{
    deletion_tally, random_storage_refine, random_storage_update, stored_count, zombify_forget_len,
};
use jam_services::fib::{fibonacci, fibonacci_wrapping};
use jam_services::keys::{module_key, record_transfer, transfer_count_key, transfer_key};
use jam_services::life_service::{accumulate, board_key, decode_size, encode_size, size_key};
use jam_services::wasm_service::{
    plan_refine, plan_refine_payload, plan_work_item, plan_work_item_output, HostArgs, InvokeData,
    RefinePlan, WorkItemPlan,
};

#[test]
fn accumulate_with_empty_storage_stores_default_empty_board() {
    let (size, board) = accumulate(None, None, 0);
    assert_eq!(size, vec![8, 0, 0, 0]);
    assert_eq!(board, vec![0u8; 64]);
}

#[test]
fn accumulate_keeps_stored_board() {
    let (size, board) = accumulate(Some(vec![2, 0, 0, 0]), Some(vec![1, 0, 0, 7]), 0);
    assert_eq!(size, vec![2, 0, 0, 0]);
    assert_eq!(board, vec![0xff, 0, 0, 0xff]);
}

#[test]
fn accumulate_ignores_board_of_wrong_length() {
    let (size, board) = accumulate(Some(vec![2]), Some(vec![1, 1, 1]), 0);
    assert_eq!(size, vec![2, 0, 0, 0]);
    assert_eq!(board, vec![0, 0, 0, 0]);
}

#[test]
fn accumulate_runs_generations() {
    let (size, board) = accumulate(Some(vec![1]), Some(vec![7]), 5);
    assert_eq!(size, vec![1, 0, 0, 0]);
    assert_eq!(board, vec![0]);
}

#[test]
fn accumulate_state_persists() {
    let (size, board) = accumulate(Some(vec![3, 0]), Some(vec![0, 1, 0, 1, 0, 1, 0, 1, 0]), 0);
    let (size2, board2) = accumulate(Some(size.clone()), Some(board.clone()), 0);
    assert_eq!(size2, size);
    assert_eq!(board2, board);
}

#[test]
fn size_codec() {
    assert_eq!(decode_size(&None), 8);
    assert_eq!(decode_size(&Some(vec![])), 0);
    assert_eq!(decode_size(&Some(vec![1, 2])), 0x0201);
    assert_eq!(encode_size(0x04030201), vec![1, 2, 3, 4]);
    assert_eq!(decode_size(&Some(encode_size(123456789))), 123456789);
    assert_eq!(decode_size(&Some(encode_size(u32::MAX))), u32::MAX);
}

#[test]
fn storage_keys_of_the_game() {
    assert_eq!(size_key(), b"size".to_vec());
    assert_eq!(board_key(), b"board".to_vec());
}

#[test]
fn fibonacci_saturating() {
    assert_eq!(fibonacci(0), 0);
    assert_eq!(fibonacci(1), 1);
    assert_eq!(fibonacci(2), 1);
    assert_eq!(fibonacci(10), 55);
    assert_eq!(fibonacci(93), 12200160415121876738);
    assert_eq!(fibonacci(94), u64::MAX);
    assert_eq!(fibonacci(300), u64::MAX);
}

#[test]
fn fibonacci_wraps() {
    assert_eq!(fibonacci_wrapping(0), 0);
    assert_eq!(fibonacci_wrapping(10), 55);
    assert_eq!(fibonacci_wrapping(93), 12200160415121876738);
    assert_eq!(fibonacci_wrapping(94), 1293530146158671551);
}

#[test]
fn decimal_keys() {
    assert_eq!(module_key(0), b"module0".to_vec());
    assert_eq!(module_key(10), b"module10".to_vec());
    assert_eq!(module_key(1234567890), b"module1234567890".to_vec());
    assert_eq!(module_key(u32::MAX), b"module4294967295".to_vec());
    assert_eq!(transfer_key(42), b"transfer42".to_vec());
    assert_eq!(transfer_count_key(), b"transfer-count".to_vec());
}

#[test]
fn transfer_bookkeeping() {
    let memo = [7u8; 128];
    let first = record_transfer(&None, 5, 6, memo);
    assert_eq!(first.next_count, 1);
    assert_eq!(first.encoded_next_count, vec![1, 0, 0, 0]);
    assert_eq!(first.record_key, b"transfer0".to_vec());
    let later = record_transfer(&Some(vec![41, 0, 0, 0]), 5, 6, memo);
    assert_eq!(later.next_count, 42);
    assert_eq!(later.encoded_next_count, vec![42, 0, 0, 0]);
    assert_eq!(later.record_key, b"transfer41".to_vec());
    let next = record_transfer(&Some(later.encoded_next_count.clone()), 5, 6, memo);
    assert_eq!(next.next_count, 43);
    assert_eq!(next.record_key, b"transfer42".to_vec());
    assert_ne!(next.record_key, later.record_key);
}

#[test]
fn transfer_counter_that_does_not_decode_counts_as_zero() {
    let out = record_transfer(&Some(vec![5, 0]), 0, 0, [0u8; 128]);
    assert_eq!(out.next_count, 1);
    assert_eq!(out.record_key, b"transfer0".to_vec());
    let wide = record_transfer(&Some(vec![0, 1, 0, 0, 0xff]), 0, 0, [0u8; 128]);
    assert_eq!(wide.next_count, 257);
    assert_eq!(wide.encoded_next_count, vec![1, 1, 0, 0]);
}

#[test]
fn host_args_record_logs() {
    let mut args = HostArgs::new(7, 9);
    assert_eq!(*args.service_id(), 7);
    assert_eq!(args.slot(), 9);
    assert_eq!(args.last_guest_log(), None);
    args.record_guest_log(5);
    args.record_guest_log(-3);
    assert_eq!(args.last_guest_log(), Some(-3));
    assert_eq!(*args.service_id(), 7);
    assert_eq!(args.slot(), 9);
}

#[test]
fn refine_plans() {
    let deploy = plan_refine(InvokeData { module: 0, input: vec![1, 2] });
    assert!(matches!(deploy, RefinePlan::PassThrough));
    match plan_refine(InvokeData { module: 3, input: vec![4] }) {
        RefinePlan::Execute { module, code_key, input } => {
            assert_eq!(module, 3);
            assert_eq!(code_key, b"module3".to_vec());
            assert_eq!(input, vec![4]);
        }
        RefinePlan::PassThrough => panic!("module 3 must run"),
    }
}

#[test]
fn work_item_plans() {
    match plan_work_item(InvokeData { module: 0, input: vec![0, 97, 115, 109] }) {
        WorkItemPlan::Deploy { code_key, code } => {
            assert_eq!(code_key, b"module0".to_vec());
            assert_eq!(code, vec![0, 97, 115, 109]);
        }
        WorkItemPlan::Execute { .. } => panic!("module 0 deploys"),
    }
    match plan_work_item(InvokeData { module: 12, input: vec![] }) {
        WorkItemPlan::Execute { module, code_key, input } => {
            assert_eq!(module, 12);
            assert_eq!(code_key, b"module12".to_vec());
            assert_eq!(input, Vec::<u8>::new());
        }
        WorkItemPlan::Deploy { .. } => panic!("module 12 runs"),
    }
}

#[test]
fn random_storage_keys_count() {
    assert_eq!(random_storage_refine(42, 5).len(), 5);
    assert_eq!(random_storage_refine(1, 0).len(), 0);
    assert_eq!(random_storage_refine(7, 255).len(), 255);
}

#[test]
fn stored_counter_decodes_little_endian() {
    assert_eq!(stored_count(&None), 0);
    assert_eq!(stored_count(&Some(vec![1, 0, 0, 0, 0, 0, 0, 0, 9])), 1);
    assert_eq!(stored_count(&Some(vec![0, 1, 0, 0, 0, 0, 0, 0])), 256);
    assert_eq!(stored_count(&Some(vec![0, 0, 0, 0, 0, 0, 0, 1])), 1 << 56);
}

#[test]
fn random_storage_counter_update() {
    let keys = random_storage_refine(3, 3);
    let out = random_storage_update(&Some(vec![10, 0, 0, 0, 0, 0, 0, 0]), &keys);
    assert_eq!(out.count, 13);
    assert_eq!(out.encoded_count, vec![13, 0, 0, 0, 0, 0, 0, 0]);
    let again = random_storage_update(&Some(out.encoded_count.clone()), &Vec::new());
    assert_eq!(again.count, 13);
    let fresh = random_storage_update(&None, &keys);
    assert_eq!(fresh.count, 3);
    let big = random_storage_update(&Some(vec![0, 1, 0, 0, 0, 0, 0, 2]), &Vec::new());
    assert_eq!(big.encoded_count, vec![0, 1, 0, 0, 0, 0, 0, 2]);
}

#[test]
fn zombify_condition() {
    assert_eq!(zombify_forget_len(100, 2), Some(19));
    assert_eq!(zombify_forget_len(81, 2), Some(0));
    assert_eq!(zombify_forget_len(80, 2), None);
    assert_eq!(zombify_forget_len(100, 3), None);
    assert_eq!(zombify_forget_len(100, 1), None);
}

#[test]
fn deletions_tallied() {
    assert_eq!(deletion_tally(&vec![true, false, true]), (2, 1));
    assert_eq!(deletion_tally(&vec![]), (0, 0));
    assert_eq!(deletion_tally(&vec![false, false]), (0, 2));
}

#[test]
fn transfer_record_is_encoded() {
    let mut memo = [0u8; 128];
    memo[0] = 9;
    memo[127] = 8;
    let out = record_transfer(&None, 0x01020304, 0x0a, memo);
    let mut expected = vec![4, 3, 2, 1, 0x0a, 0, 0, 0, 0, 0, 0, 0];
    expected.extend_from_slice(&memo);
    assert_eq!(out.record_value, expected);
}

#[test]
fn refine_payload_decodes_invocation() {
    let payload = (3u32, vec![4u8]).encode();
    assert_eq!(&payload[..4], &[3, 0, 0, 0]);
    match plan_refine_payload(&payload) {
        Some(RefinePlan::Execute { module, code_key, input }) => {
            assert_eq!(module, 3);
            assert_eq!(code_key, b"module3".to_vec());
            assert_eq!(input, vec![4]);
        }
        _ => panic!("module 3 must run"),
    }
    let deploy = (0u32, Vec::<u8>::new()).encode();
    assert!(matches!(plan_refine_payload(&deploy), Some(RefinePlan::PassThrough)));
    assert!(plan_refine_payload(&[1, 2]).is_none());
    let mut short = (3u32, vec![4u8, 5]).encode();
    short.pop();
    assert!(plan_refine_payload(&short).is_none());
}

#[test]
fn work_item_output_decodes_invocation() {
    match plan_work_item_output(&(0u32, vec![1u8, 2]).encode()) {
        Some(WorkItemPlan::Deploy { code_key, code }) => {
            assert_eq!(code_key, b"module0".to_vec());
            assert_eq!(code, vec![1, 2]);
        }
        _ => panic!("module 0 deploys"),
    }
    match plan_work_item_output(&(12u32, Vec::<u8>::new()).encode()) {
        Some(WorkItemPlan::Execute { module, code_key, input }) => {
            assert_eq!(module, 12);
            assert_eq!(code_key, b"module12".to_vec());
            assert_eq!(input, Vec::<u8>::new());
        }
        _ => panic!("module 12 runs"),
    }
    assert!(plan_work_item_output(&[]).is_none());
}
