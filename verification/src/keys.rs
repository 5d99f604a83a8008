//! Storage keys built from a prefix and a number in decimal, and the
//! bookkeeping of incoming transfers that uses them.
use vstd::prelude::*;
use crate::codec::{entry_view, decode_u32, encode_u32, encode_transfer_record, le_u64_bytes, le_u32_bytes, le_u32_value, lemma_u32_roundtrip};

verus! {

/// The ASCII decimal digits of `n`, most significant first, without leading
/// zeros.
pub open spec fn decimal(n: nat) -> Seq<u8>
    decreases n,
{
    if n < 10 {
        seq![(48 + n) as u8]
    } else {
        decimal(n / 10).push((48 + n % 10) as u8)
    }
}

/// `module`
pub open spec fn module_prefix() -> Seq<u8> {
    seq![109u8, 111u8, 100u8, 117u8, 108u8, 101u8]
}

/// `transfer`
pub open spec fn transfer_prefix() -> Seq<u8> {
    seq![116u8, 114u8, 97u8, 110u8, 115u8, 102u8, 101u8, 114u8]
}

/// `transfer-count`
pub open spec fn transfer_count_prefix() -> Seq<u8> {
    transfer_prefix() + seq![45u8, 99u8, 111u8, 117u8, 110u8, 116u8]
}

/// The storage key of the code of a module: `module` and its number.
pub open spec fn module_key_spec(module: nat) -> Seq<u8> {
    module_prefix() + decimal(module)
}

/// The storage key of the record of a transfer: `transfer` and its number.
pub open spec fn transfer_key_spec(count: nat) -> Seq<u8> {
    transfer_prefix() + decimal(count)
}

proof fn lemma_decimal_len(n: nat)
    ensures
        decimal(n).len() >= 1,
        n >= 10 ==> decimal(n).len() >= 2,
    decreases n,
{
    if n >= 10 {
        lemma_decimal_len(n / 10);
    }
}

/// Different numbers have different decimal forms.
pub proof fn lemma_decimal_injective(a: nat, b: nat)
    requires
        decimal(a) == decimal(b),
    ensures
        a == b,
    decreases a,
{
    lemma_decimal_len(a);
    lemma_decimal_len(b);
    if a < 10 && b < 10 {
        assert(decimal(a)[0] == decimal(b)[0]);
        assert(decimal(a)[0] == 48 + a);
        assert(decimal(b)[0] == 48 + b);
    } else if a < 10 {
        assert(decimal(a).len() == 1);
    } else if b < 10 {
        assert(decimal(b).len() == 1);
    } else {
        let da = decimal(a);
        let db = decimal(b);
        assert(da.last() == db.last());
        assert(da.last() == 48 + a % 10);
        assert(db.last() == 48 + b % 10);
        assert(da.drop_last() =~= decimal(a / 10));
        assert(db.drop_last() =~= decimal(b / 10));
        lemma_decimal_injective(a / 10, b / 10);
        assert(a == 10 * (a / 10) + a % 10);
        assert(b == 10 * (b / 10) + b % 10);
    }
}

proof fn lemma_prefix_cancel(p: Seq<u8>, a: Seq<u8>, b: Seq<u8>)
    requires
        p + a == p + b,
    ensures
        a == b,
{
    assert(a =~= (p + a).subrange(p.len() as int, (p + a).len() as int));
    assert(b =~= (p + b).subrange(p.len() as int, (p + b).len() as int));
}

/// Different modules have their code stored under different keys.
pub proof fn lemma_module_keys_distinct(a: nat, b: nat)
    requires
        a != b,
    ensures
        module_key_spec(a) != module_key_spec(b),
{
    if module_key_spec(a) == module_key_spec(b) {
        lemma_prefix_cancel(module_prefix(), decimal(a), decimal(b));
        lemma_decimal_injective(a, b);
    }
}

/// Different transfers have their records stored under different keys, none
/// of which is the key of a module's code or of the transfer counter.
pub proof fn lemma_transfer_keys_distinct(a: nat, b: nat, m: nat)
    ensures
        a != b ==> transfer_key_spec(a) != transfer_key_spec(b),
        transfer_key_spec(a) != module_key_spec(m),
        transfer_key_spec(a) != transfer_count_prefix(),
{
    if a != b && transfer_key_spec(a) == transfer_key_spec(b) {
        lemma_prefix_cancel(transfer_prefix(), decimal(a), decimal(b));
        lemma_decimal_injective(a, b);
    }
    assert(transfer_key_spec(a)[0] != module_key_spec(m)[0]);
    lemma_decimal_len(a);
    let k = transfer_key_spec(a);
    let c = transfer_count_prefix();
    if k == c {
        assert(k[8] == c[8]);
        assert(decimal(a)[0] == k[8]);
        lemma_decimal_digits(a);
    }
}

proof fn lemma_decimal_digits(n: nat)
    ensures
        forall|i: int| 0 <= i < decimal(n).len() ==> 48 <= #[trigger] decimal(n)[i] <= 57,
    decreases n,
{
    if n >= 10 {
        lemma_decimal_digits(n / 10);
        let d = decimal(n);
        assert forall|i: int| 0 <= i < d.len() implies 48 <= #[trigger] d[i] <= 57 by {
            if i < d.len() - 1 {
                assert(d[i] == decimal(n / 10)[i]);
            } else {
                assert(d[i] == 48 + n % 10);
            }
        }
    } else {
        assert(decimal(n)[0] == 48 + n);
    }
}

/// Appends the decimal digits of `n`.
fn push_decimal(out: &mut Vec<u8>, n: u32)
    ensures
        final(out)@ == old(out)@ + decimal(n as nat),
    decreases n,
{
    if n >= 10 {
        push_decimal(out, n / 10);
    }
    let digit = (48 + n % 10) as u8;
    out.push(digit);
    proof {
        if n >= 10 {
            assert(old(out)@ + decimal(n as nat) =~= old(out)@ + decimal((n / 10) as nat) + seq![digit]);
        } else {
            assert(old(out)@ + decimal(n as nat) =~= old(out)@ + seq![digit]);
        }
    }
}

/// The storage key of the code of a module: `module{module}`.
pub fn module_key(module: u32) -> (key: Vec<u8>)
    ensures
        key@ == module_key_spec(module as nat),
{
    let mut key = Vec::new();
    key.push(109u8);
    key.push(111u8);
    key.push(100u8);
    key.push(117u8);
    key.push(108u8);
    key.push(101u8);
    assert(key@ =~= module_prefix());
    push_decimal(&mut key, module);
    key
}

/// The storage key of the record of the transfer numbered `count`:
/// `transfer{count}`.
pub fn transfer_key(count: u32) -> (key: Vec<u8>)
    ensures
        key@ == transfer_key_spec(count as nat),
{
    let mut key = Vec::new();
    push_transfer_prefix(&mut key);
    push_decimal(&mut key, count);
    key
}

fn push_transfer_prefix(key: &mut Vec<u8>)
    ensures
        final(key)@ == old(key)@ + transfer_prefix(),
{
    key.push(116u8);
    key.push(114u8);
    key.push(97u8);
    key.push(110u8);
    key.push(115u8);
    key.push(102u8);
    key.push(101u8);
    key.push(114u8);
    assert(key@ =~= old(key)@ + transfer_prefix());
}

/// The storage key of the number of transfers received: `transfer-count`.
pub fn transfer_count_key() -> (key: Vec<u8>)
    ensures
        key@ == transfer_count_prefix(),
{
    let mut key = Vec::new();
    push_transfer_prefix(&mut key);
    key.push(45u8);
    key.push(99u8);
    key.push(111u8);
    key.push(117u8);
    key.push(110u8);
    key.push(116u8);
    assert(key@ =~= transfer_count_prefix());
    key
}

/// The transfer counter, as read from storage: zero when nothing is stored
/// or the stored value does not decode.
pub open spec fn stored_transfer_count(entry: Option<Seq<u8>>) -> nat {
    match entry {
        Some(b) => if b.len() >= 4 {
            le_u32_value(b)
        } else {
            0
        },
        None => 0,
    }
}

/// The transfer counter, as read from what is stored under `transfer-count`.
pub fn transfer_count(entry: &Option<Vec<u8>>) -> (count: u32)
    ensures
        count == stored_transfer_count(entry_view(*entry)),
{
    match entry {
        Some(v) => match decode_u32(v.as_slice()) {
            Some(c) => c,
            None => 0,
        },
        None => 0,
    }
}

/// What the service stores on receiving a transfer.
pub struct TransferBookkeeping {
    /// The new value of the transfer counter.
    pub next_count: u32,
    /// The bytes to store for it under `transfer-count`.
    pub encoded_next_count: Vec<u8>,
    /// The key under which the transfer is recorded.
    pub record_key: Vec<u8>,
    /// The record: the source, the amount and the memo, encoded.
    pub record_value: Vec<u8>,
}

/// The bookkeeping of one incoming transfer of `amount` from `source` with
/// `memo`, from what is stored under `transfer-count`: the counter goes up by
/// one, and the source, amount and memo are recorded under `transfer{count}`,
/// `count` being the counter before.
///
/// Incrementing the counter must not overflow.
pub fn record_transfer(entry: &Option<Vec<u8>>, source: u32, amount: u64, memo: [u8; 128]) -> (out:
    TransferBookkeeping)
    requires
        stored_transfer_count(entry_view(*entry)) < u32::MAX,
    ensures
        out.next_count == stored_transfer_count(entry_view(*entry)) + 1,
        out.encoded_next_count@ == le_u32_bytes(out.next_count),
        out.record_key@ == transfer_key_spec(stored_transfer_count(entry_view(*entry))),
        out.record_value@ == le_u32_bytes(source) + le_u64_bytes(amount) + memo@,
{
    let count = transfer_count(entry);
    let next_count = count + 1;
    TransferBookkeeping {
        next_count,
        encoded_next_count: encode_u32(next_count),
        record_key: transfer_key(count),
        record_value: encode_transfer_record(source, amount, memo),
    }
}

/// Each transfer moves the stored counter on by one: what one transfer stores
/// reads back, for the next, as its count plus one; so the next transfer is
/// recorded under a different key.
pub proof fn lemma_transfer_counter_advances(count: u32)
    requires
        count < u32::MAX,
    ensures
        stored_transfer_count(Some(le_u32_bytes((count + 1) as u32))) == count + 1,
        transfer_key_spec(count as nat) != transfer_key_spec((count + 1) as nat),
{
    lemma_u32_roundtrip((count + 1) as u32);
    lemma_transfer_keys_distinct(count as nat, (count + 1) as nat, 0);
}

} // verus!
