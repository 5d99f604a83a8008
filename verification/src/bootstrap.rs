//! The bootstrap service without its host calls: how a payload splits into
//! instructions, what refinement and accumulation do for each instruction,
//! which random keys a storage test writes, how its counter moves, when a
//! service may turn itself into a zombie, and how deletions are tallied.
use vstd::prelude::*;
use crate::codec::{decode_u64, encode_u64, le_u64_bytes, le_u64_value};
use jam_bootstrap_service_common::Instruction;

verus! {

/// A bootstrap instruction of the outside crate, carried as it is.
#[verifier::external_type_specification]
#[verifier::external_body]
pub struct ExInstruction(Instruction);

/// An instruction as refinement reads it.
pub enum RefineInstruction {
    /// Look up the preimage `hash` in the store of `service`.
    Lookup { service: u32, hash: [u8; 32] },
    /// Make random keys for a storage test.
    RandomStorageRefine { seed: u64, nb_items: u8 },
    /// Export each blob as a segment.
    Export { data: Vec<Vec<u8>> },
    /// Import the segments at the given indices, each cut to its length.
    Import { items: Vec<(u64, u64)> },
    /// Any other instruction, passed on to accumulation as it is.
    Other(Instruction),
}

/// An instruction as accumulation reads it.
#[allow(inconsistent_fields)]
pub enum AccumulateInstruction {
    /// Turn the service into a zombie that `ejector` may eject.
    Zombify { ejector: u32 },
    /// Delete these storage items.
    DeleteItems { storage_items: Vec<Vec<u8>> },
    /// The result of a lookup made during refinement.
    LookedUp { data: Option<Vec<u8>> },
    /// The segments imported during refinement.
    Imported { data: Vec<Vec<u8>> },
    /// How many segments refinement exported.
    Exported { count: u64 },
    /// The keys of a storage test, if refinement made them.
    RandomStorageAccumulate { keys: Option<Vec<[u8; 32]>> },
    /// Panic.
    Panic,
    /// Any other instruction, carried out through the host as it is.
    Other(Instruction),
}

/// What the JAM codec decodes from the front of some bytes as one instruction,
/// with the number of bytes it reads.
pub uninterp spec fn instruction_decoding(bytes: Seq<u8>) -> Option<(RefineInstruction, nat)>;

/// What the JAM codec decodes from some bytes as a list of instructions.
pub uninterp spec fn instructions_decoding(bytes: Seq<u8>) -> Option<Seq<AccumulateInstruction>>;

/// What the JAM codec encodes a list of byte strings as.
pub uninterp spec fn blobs_encoding(blobs: Seq<Seq<u8>>) -> Seq<u8>;

/// `Decode for Instruction` (derived) of the JAM codec, on the front of
/// `bytes`: it reads the variant index byte first, so it reads at least one
/// byte, and never more than there are.
#[verifier::external_body]
fn decode_instruction(bytes: &[u8]) -> (decoded: Option<(RefineInstruction, usize)>)
    ensures
        match decoded {
            Some((i, n)) => instruction_decoding(bytes@) == Some((i, n as nat)),
            None => instruction_decoding(bytes@) is None,
        },
        decoded matches Some((_, n)) ==> 1 <= n <= bytes@.len(),
{
    let mut rest = bytes;
    let inst = <Instruction as jam_types::Decode>::decode(&mut rest).ok()?;
    Some((match inst {
        Instruction::Lookup { service, hash, .. } => RefineInstruction::Lookup { service, hash: hash.0 },
        Instruction::RandomStorageRefine(i) => RefineInstruction::RandomStorageRefine { seed: i.seed, nb_items: i.nb_items },
        Instruction::Export { data } => RefineInstruction::Export { data },
        Instruction::Import { items } => RefineInstruction::Import { items },
        other => RefineInstruction::Other(other),
    }, bytes.len() - rest.len()))
}

/// `Decode for Vec<Instruction>` (derived) of the JAM codec.
#[verifier::external_body]
fn decode_instructions(bytes: &[u8]) -> (decoded: Option<Vec<AccumulateInstruction>>)
    ensures
        match decoded {
            Some(v) => instructions_decoding(bytes@) == Some(v@),
            None => instructions_decoding(bytes@) is None,
        },
{
    let insts = <Vec<Instruction> as jam_types::Decode>::decode(&mut &bytes[..]).ok()?;
    Some(insts.into_iter().map(|inst| match inst {
        Instruction::Zombify { ejector } => AccumulateInstruction::Zombify { ejector },
        Instruction::DeleteItems { storage_items } => AccumulateInstruction::DeleteItems { storage_items },
        Instruction::LookedUp { data } => AccumulateInstruction::LookedUp { data },
        Instruction::Imported { data } => AccumulateInstruction::Imported { data },
        Instruction::Exported { count } => AccumulateInstruction::Exported { count },
        Instruction::RandomStorageAccumulate(r) => AccumulateInstruction::RandomStorageAccumulate { keys: r.ok().map(|o| o.items.into_iter().map(|i| i.key).collect()) },
        Instruction::Panic => AccumulateInstruction::Panic,
        other => AccumulateInstruction::Other(other),
    }).collect())
}

/// `Encode for Vec<Vec<u8>>` of the JAM codec.
#[verifier::external_body]
fn encode_blobs(blobs: &Vec<Vec<u8>>) -> (bytes: Vec<u8>)
    ensures
        bytes@ == blobs_encoding(blobs@.map_values(|b: Vec<u8>| b@)),
{
    jam_types::Encode::encode(blobs)
}

/// The instructions of a payload made of encoded instructions one after
/// another, or nothing when some part does not decode.
pub open spec fn payload_instructions(bytes: Seq<u8>) -> Option<Seq<RefineInstruction>>
    decreases bytes.len(),
{
    if bytes.len() == 0 {
        Some(seq![])
    } else {
        match instruction_decoding(bytes) {
            Some((inst, n)) => if 1 <= n <= bytes.len() {
                match payload_instructions(bytes.skip(n as int)) {
                    Some(rest) => Some(seq![inst] + rest),
                    None => None,
                }
            } else {
                None
            },
            None => None,
        }
    }
}

/// An empty payload holds no instructions.
pub proof fn lemma_empty_payload()
    ensures
        payload_instructions(Seq::<u8>::empty()) == Some(Seq::<RefineInstruction>::empty()),
{
}

/// Putting an instruction's encoding in front of a payload puts the
/// instruction in front of its instructions: if the bytes `a + b` begin with
/// an instruction `i` whose encoding is exactly `a`, and `b` splits into `r`,
/// then `a + b` splits into `i` followed by `r`. In particular a payload that
/// is the whole encoding of one instruction splits into that instruction.
pub proof fn lemma_payload_concat(a: Seq<u8>, b: Seq<u8>, i: RefineInstruction, r: Seq<RefineInstruction>)
    requires
        a.len() >= 1,
        instruction_decoding(a + b) == Some((i, a.len())),
        payload_instructions(b) == Some(r),
    ensures
        payload_instructions(a + b) == Some(seq![i] + r),
        b.len() == 0 ==> payload_instructions(a) == Some(seq![i]),
{
    assert((a + b).skip(a.len() as int) =~= b);
    if b.len() == 0 {
        assert(a + b =~= a);
        assert(r =~= Seq::<RefineInstruction>::empty());
        assert(seq![i] + r =~= seq![i]);
    }
}

/// A payload splits into at most as many instructions as it has bytes, each
/// instruction taking at least one; a non-empty payload that splits holds at
/// least one instruction, and its first instruction is the one decoded from
/// its front.
pub proof fn lemma_payload_instructions_count(bytes: Seq<u8>)
    ensures
        payload_instructions(bytes) matches Some(s) ==> s.len() <= bytes.len(),
        payload_instructions(bytes) matches Some(s) ==> (bytes.len() > 0 <==> s.len() > 0),
        match payload_instructions(bytes) {
            Some(s) => bytes.len() > 0 ==> (instruction_decoding(bytes) matches Some((i, n)) && i
                == s[0] && 1 <= n <= bytes.len() && payload_instructions(bytes.skip(n as int))
                == Some(s.drop_first())),
            None => true,
        },
    decreases bytes.len(),
{
    if bytes.len() > 0 {
        if let Some((i, n)) = instruction_decoding(bytes) {
            if 1 <= n <= bytes.len() {
                lemma_payload_instructions_count(bytes.skip(n as int));
                if let Some(rest) = payload_instructions(bytes.skip(n as int)) {
                    assert((seq![i] + rest).drop_first() =~= rest);
                }
            }
        }
    }
}

/// Splits a refine payload, made of encoded instructions one after another,
/// into its instructions; nothing when some part does not decode.
pub fn split_payload(payload: &[u8]) -> (instructions: Option<Vec<RefineInstruction>>)
    ensures
        match instructions {
            Some(v) => payload_instructions(payload@) == Some(v@),
            None => payload_instructions(payload@) is None,
        },
{
    let mut out: Vec<RefineInstruction> = Vec::new();
    let mut pos: usize = 0;
    let len = payload.len();
    proof {
        assert(payload@.skip(0) =~= payload@);
        if let Some(r) = payload_instructions(payload@) {
            assert(out@ + r =~= r);
        }
    }
    while pos < len
        invariant
            len == payload@.len(),
            pos <= len,
            payload_instructions(payload@) == match payload_instructions(payload@.skip(pos as int)) {
                Some(rest) => Some(out@ + rest),
                None => None,
            },
        decreases len - pos,
    {
        let rest = vstd::slice::slice_subrange(payload, pos, len);
        assert(rest@ =~= payload@.skip(pos as int));
        match decode_instruction(rest) {
            Some((inst, n)) => {
                proof {
                    assert(payload@.skip(pos as int).skip(n as int) =~= payload@.skip(pos + n));
                    let suffix = payload_instructions(payload@.skip(pos + n));
                    if let Some(tail) = suffix {
                        assert(out@.push(inst) + tail =~= out@ + (seq![inst] + tail));
                    }
                }
                out.push(inst);
                pos = pos + n;
            },
            None => {
                return None;
            },
        }
    }
    proof {
        assert(payload@.skip(pos as int) =~= Seq::<u8>::empty());
        assert(out@ + Seq::<RefineInstruction>::empty() =~= out@);
    }
    Some(out)
}

/// What refinement does for an instruction.
pub enum RefineAction {
    /// Look up `hash` in the store of `service`; if found, emit `LookedUp`
    /// with the data.
    Lookup { service: u32, hash: [u8; 32] },
    /// Emit these keys for the storage test of accumulation.
    EmitRandomStorage { keys: Vec<[u8; 32]> },
    /// Export each blob, then emit `Exported` with `count`.
    Export { data: Vec<Vec<u8>>, count: u64 },
    /// Import each segment, cut to its length, then emit `Imported`.
    Import { items: Vec<(u64, u64)> },
    /// Emit the instruction unchanged.
    PassThrough(Instruction),
}

/// `action` is what refinement does for `inst`.
pub open spec fn is_refine_action_for(inst: RefineInstruction, action: RefineAction) -> bool {
    match inst {
        RefineInstruction::Lookup { service, hash } => action == RefineAction::Lookup {
            service,
            hash,
        },
        RefineInstruction::RandomStorageRefine { seed, nb_items } => (action matches RefineAction::EmitRandomStorage {
            keys,
        } && keys@.len() == nb_items),
        RefineInstruction::Export { data } => (action matches RefineAction::Export {
            data: d,
            count,
        } && d@ == data@ && count == data@.len()),
        RefineInstruction::Import { items } => (action matches RefineAction::Import { items: i }
            && i@ == items@),
        RefineInstruction::Other(i) => action == RefineAction::PassThrough(i),
    }
}

/// What refinement does for an instruction: lookups, exports and imports go
/// to the host, a storage test gets its keys, anything else passes on.
pub fn refine_action(inst: RefineInstruction) -> (action: RefineAction)
    ensures
        is_refine_action_for(inst, action),
{
    match inst {
        RefineInstruction::Lookup { service, hash } => RefineAction::Lookup { service, hash },
        RefineInstruction::RandomStorageRefine { seed, nb_items } => RefineAction::EmitRandomStorage {
            keys: random_storage_refine(seed, nb_items),
        },
        RefineInstruction::Export { data } => {
            let count = data.len() as u64;
            RefineAction::Export { data, count }
        },
        RefineInstruction::Import { items } => RefineAction::Import { items },
        RefineInstruction::Other(i) => RefineAction::PassThrough(i),
    }
}

/// The instructions of a refine payload, each with what refinement does for
/// it; nothing when the payload does not split into instructions.
pub fn refine_actions(payload: &[u8]) -> (actions: Option<Vec<RefineAction>>)
    ensures
        actions is None <==> payload_instructions(payload@) is None,
        actions matches Some(a) ==> ({
            let insts = payload_instructions(payload@).unwrap();
            &&& a@.len() == insts.len()
            &&& forall|i: int| 0 <= i < insts.len() ==> is_refine_action_for(insts[i], #[trigger] a@[i])
        }),
{
    match split_payload(payload) {
        Some(insts) => {
            let ghost decoded = insts@;
            let mut insts = insts;
            let mut actions: Vec<RefineAction> = Vec::new();
            assert(decoded.skip(0) =~= decoded);
            while insts.len() > 0
                invariant
                    actions@.len() + insts@.len() == decoded.len(),
                    insts@ == decoded.skip(actions@.len() as int),
                    forall|i: int|
                        0 <= i < actions@.len() ==> is_refine_action_for(decoded[i], #[trigger] actions@[i]),
                decreases insts.len(),
            {
                let ghost k = actions@.len() as int;
                let inst = insts.remove(0);
                assert(inst == decoded[k]);
                assert(insts@ =~= decoded.skip(k + 1));
                actions.push(refine_action(inst));
            }
            Some(actions)
        },
        None => None,
    }
}

/// What accumulation does for an instruction.
#[allow(inconsistent_fields)]
pub enum HostAction {
    /// Store `value` under `key`.
    Store { key: Vec<u8>, value: Vec<u8> },
    /// Turn into a zombie that `ejector` may eject, if `zombify_forget_len`
    /// allows it.
    Zombify { ejector: u32 },
    /// Remove each key, then tally with `deletion_tally`.
    Delete { keys: Vec<Vec<u8>> },
    /// Store each key under itself, then the counter from
    /// `random_storage_update` under `random_storage_count_key`.
    RandomStorage { keys: Vec<[u8; 32]> },
    /// Nothing to do.
    Nothing,
    /// Panic.
    Panic,
    /// Carry out the instruction through the host.
    Host(Instruction),
}

/// `looked_up`
pub open spec fn looked_up_key() -> Seq<u8> {
    seq![108u8, 111u8, 111u8, 107u8, 101u8, 100u8, 95u8, 117u8, 112u8]
}

/// `imported`
pub open spec fn imported_key() -> Seq<u8> {
    seq![105u8, 109u8, 112u8, 111u8, 114u8, 116u8, 101u8, 100u8]
}

/// `exported`
pub open spec fn exported_key() -> Seq<u8> {
    seq![101u8, 120u8, 112u8, 111u8, 114u8, 116u8, 101u8, 100u8]
}

/// `count_random_storage`
pub open spec fn count_random_storage_key() -> Seq<u8> {
    seq![99u8, 111u8, 117u8, 110u8, 116u8, 95u8, 114u8, 97u8, 110u8, 100u8, 111u8, 109u8, 95u8,
        115u8, 116u8, 111u8, 114u8, 97u8, 103u8, 101u8]
}

fn vec_of(bytes: &[u8]) -> (v: Vec<u8>)
    ensures
        v@ == bytes@,
{
    vstd::slice::slice_to_vec(bytes)
}

/// The storage key of the counter of the storage tests: `count_random_storage`.
pub fn random_storage_count_key() -> (key: Vec<u8>)
    ensures
        key@ == count_random_storage_key(),
{
    let k: [u8; 20] = [99, 111, 117, 110, 116, 95, 114, 97, 110, 100, 111, 109, 95, 115, 116, 111, 114, 97, 103, 101];
    let key = vec_of(&k);
    assert(key@ =~= count_random_storage_key());
    key
}

/// `action` is what accumulation does for `inst`.
pub open spec fn is_action_for(inst: AccumulateInstruction, action: HostAction) -> bool {
    match inst {
        AccumulateInstruction::LookedUp { data: Some(d) } => (action matches HostAction::Store {
            key,
            value,
        } && key@ == looked_up_key() && value@ == d@),
        AccumulateInstruction::LookedUp { data: None } => action is Nothing,
        AccumulateInstruction::Imported { data } => (action matches HostAction::Store {
            key,
            value,
        } && key@ == imported_key() && value@ == blobs_encoding(
            data@.map_values(|b: Vec<u8>| b@),
        )),
        AccumulateInstruction::Exported { count } => (action matches HostAction::Store {
            key,
            value,
        } && key@ == exported_key() && value@ == le_u64_bytes(count)),
        AccumulateInstruction::Zombify { ejector } => action == HostAction::Zombify { ejector },
        AccumulateInstruction::DeleteItems { storage_items } => (action matches HostAction::Delete {
            keys,
        } && keys@ == storage_items@),
        AccumulateInstruction::RandomStorageAccumulate { keys: Some(k) } => (
        action matches HostAction::RandomStorage { keys } && keys@ == k@),
        AccumulateInstruction::RandomStorageAccumulate { keys: None } => action is Nothing,
        AccumulateInstruction::Panic => action is Panic,
        AccumulateInstruction::Other(i) => action == HostAction::Host(i),
    }
}

/// What accumulation does for an instruction: results of refinement are
/// stored under their keys, storage tests, deletions and zombification get
/// their own handling, a panic instruction panics, and anything else goes to
/// the host as it is.
pub fn accumulate_action(inst: AccumulateInstruction) -> (action: HostAction)
    ensures
        is_action_for(inst, action),
{
    match inst {
        AccumulateInstruction::LookedUp { data: Some(d) } => {
            let k: [u8; 9] = [108, 111, 111, 107, 101, 100, 95, 117, 112];
            let key = vec_of(&k);
            assert(key@ =~= looked_up_key());
            HostAction::Store { key, value: d }
        },
        AccumulateInstruction::LookedUp { data: None } => HostAction::Nothing,
        AccumulateInstruction::Imported { data } => {
            let k: [u8; 8] = [105, 109, 112, 111, 114, 116, 101, 100];
            let key = vec_of(&k);
            assert(key@ =~= imported_key());
            HostAction::Store { key, value: encode_blobs(&data) }
        },
        AccumulateInstruction::Exported { count } => {
            let k: [u8; 8] = [101, 120, 112, 111, 114, 116, 101, 100];
            let key = vec_of(&k);
            assert(key@ =~= exported_key());
            HostAction::Store { key, value: encode_u64(count) }
        },
        AccumulateInstruction::Zombify { ejector } => HostAction::Zombify { ejector },
        AccumulateInstruction::DeleteItems { storage_items } => HostAction::Delete {
            keys: storage_items,
        },
        AccumulateInstruction::RandomStorageAccumulate { keys: Some(keys) } => HostAction::RandomStorage {
            keys,
        },
        AccumulateInstruction::RandomStorageAccumulate { keys: None } => HostAction::Nothing,
        AccumulateInstruction::Panic => HostAction::Panic,
        AccumulateInstruction::Other(i) => HostAction::Host(i),
    }
}

/// The instructions of the output of a work item, each with what accumulation
/// does for it; nothing when the output does not decode.
pub fn accumulate_actions(output: &[u8]) -> (actions: Option<Vec<HostAction>>)
    ensures
        actions is None <==> instructions_decoding(output@) is None,
        actions matches Some(a) ==> ({
            let insts = instructions_decoding(output@).unwrap();
            &&& a@.len() == insts.len()
            &&& forall|i: int| 0 <= i < insts.len() ==> is_action_for(insts[i], #[trigger] a@[i])
        }),
{
    match decode_instructions(output) {
        Some(insts) => {
            let ghost decoded = insts@;
            let mut insts = insts;
            let mut actions: Vec<HostAction> = Vec::new();
            assert(decoded.skip(0) =~= decoded);
            while insts.len() > 0
                invariant
                    actions@.len() + insts@.len() == decoded.len(),
                    insts@ == decoded.skip(actions@.len() as int),
                    forall|i: int|
                        0 <= i < actions@.len() ==> is_action_for(decoded[i], #[trigger] actions@[i]),
                decreases insts.len(),
            {
                let ghost k = actions@.len() as int;
                let inst = insts.remove(0);
                assert(inst == decoded[k]);
                assert(insts@ =~= decoded.skip(k + 1));
                actions.push(accumulate_action(inst));
            }
            Some(actions)
        },
        None => None,
    }
}

/// `jam_bootstrap_service_common::test_key_vals::generate_payload`: it always
/// returns `Ok` with exactly `nb_items` keys. The keys come from a
/// pseudo-random generator seeded with `seed` whose algorithm is not the same
/// on every platform, so nothing is said of their values.
#[verifier::external_body]
fn generate_keys(seed: u64, nb_items: u8) -> (keys: Vec<[u8; 32]>)
    ensures
        keys@.len() == nb_items,
{
    let input = jam_bootstrap_service_common::test_key_vals::Input { seed, nb_items };
    match jam_bootstrap_service_common::test_key_vals::generate_payload(input) {
        Ok(output) => output.items.into_iter().map(|item| item.key).collect(),
        Err(()) => Vec::new(),
    }
}

/// The keys that a random storage test writes: as many as asked for, from a
/// generator seeded with `seed`.
pub fn random_storage_refine(seed: u64, nb_items: u8) -> (keys: Vec<[u8; 32]>)
    ensures
        keys@.len() == nb_items,
{
    generate_keys(seed, nb_items)
}

/// The counter of keys written by random storage tests, as read from storage:
/// zero when nothing is stored. A stored value must decode.
pub fn stored_count(entry: &Option<Vec<u8>>) -> (count: u64)
    requires
        entry matches Some(v) ==> v@.len() >= 8,
    ensures
        count == match entry {
            Some(v) => le_u64_value(v@),
            None => 0,
        },
{
    match entry {
        Some(v) => {
            let decoded = decode_u64(v.as_slice());
            match decoded {
                Some(c) => c,
                None => 0,
            }
        },
        None => 0,
    }
}

/// The counter after a random storage test, and its stored form.
pub struct RandomStorageUpdate {
    /// The new value of the counter.
    pub count: u64,
    /// The bytes to store for it.
    pub encoded_count: Vec<u8>,
}

/// A random storage test writes each of its keys, with the key as the value,
/// and adds one to the counter per key.
pub fn random_storage_update(entry: &Option<Vec<u8>>, keys: &Vec<[u8; 32]>) -> (out:
    RandomStorageUpdate)
    requires
        entry matches Some(v) ==> v@.len() >= 8,
        (match entry {
            Some(v) => le_u64_value(v@),
            None => 0,
        }) + keys@.len() <= u64::MAX,
    ensures
        out.count == (match entry {
            Some(v) => le_u64_value(v@),
            None => 0,
        }) + keys@.len(),
        out.encoded_count@ == le_u64_bytes(out.count),
{
    let mut count = stored_count(entry);
    let ghost start = count;
    let mut i: usize = 0;
    while i < keys.len()
        invariant
            i <= keys@.len(),
            count == start + i,
            start + keys@.len() <= u64::MAX,
        decreases keys.len() - i,
    {
        count += 1;
        i += 1;
    }
    RandomStorageUpdate { count, encoded_count: encode_u64(count) }
}

/// The number of bytes of the code preimage the service leaves behind when it
/// turns into a zombie.
pub open spec fn code_footprint() -> nat {
    81
}

/// A service may turn itself into a zombie when it holds nothing but its code:
/// two items and at least 81 bytes. It then forgets its code, whose length is
/// the bytes beyond those 81.
pub fn zombify_forget_len(bytes: u64, items: u32) -> (len: Option<u64>)
    ensures
        len == if bytes >= code_footprint() && items == 2 {
            Some((bytes - code_footprint()) as u64)
        } else {
            None::<u64>
        },
{
    if bytes >= 81 && items == 2 {
        Some(bytes - 81)
    } else {
        None
    }
}

/// How many of a batch of deletions found no item.
pub open spec fn missing_count(removed: Seq<bool>) -> nat
    decreases removed.len(),
{
    if removed.len() == 0 {
        0
    } else {
        missing_count(removed.drop_last()) + if removed.last() {
            0nat
        } else {
            1nat
        }
    }
}

/// The tally of a batch of deletions, one flag per key telling whether an
/// item was removed: how many were deleted, and how many keys were not found.
pub fn deletion_tally(removed: &Vec<bool>) -> (tally: (usize, usize))
    ensures
        tally.1 == missing_count(removed@),
        tally.0 + tally.1 == removed@.len(),
{
    let mut fail: usize = 0;
    let mut i: usize = 0;
    while i < removed.len()
        invariant
            i <= removed@.len(),
            fail == missing_count(removed@.take(i as int)),
            fail <= i,
        decreases removed.len() - i,
    {
        proof {
            assert(removed@.take(i + 1).drop_last() =~= removed@.take(i as int));
        }
        if !removed[i] {
            fail += 1;
        }
        i += 1;
    }
    proof {
        assert(removed@.take(i as int) =~= removed@);
    }
    (removed.len() - fail, fail)
}

} // verus!
