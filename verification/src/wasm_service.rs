//! The decisions of the WASM-running service: the state that the host
//! functions of a WASM guest see, and what a work item asks for.
//!
//! A work item carries an invocation: a module number and an input. Module
//! number `DEPLOY_CODE_MODULE` deploys the input as code; any other number
//! runs the code stored for that module on the input.
use vstd::prelude::*;
use crate::keys::{module_key, module_key_spec, lemma_module_keys_distinct};
use crate::codec::le_u32_value;

verus! {

/// The module number whose invocation deploys code instead of running it.
pub const DEPLOY_CODE_MODULE: u32 = 0;

/// The state shared with the host functions of a running WASM guest.
pub struct HostArgs {
    service_id: u32,
    now: u32,
    last_guest_log: Option<i64>,
}

impl View for HostArgs {
    /// The service, the slot, and the last value the guest logged.
    type V = (u32, u32, Option<i64>);

    closed spec fn view(&self) -> (u32, u32, Option<i64>) {
        (self.service_id, self.now, self.last_guest_log)
    }
}

impl HostArgs {
    /// The state for running a guest for `service_id` at slot `now`; nothing
    /// is logged yet.
    pub fn new(service_id: u32, now: u32) -> (args: Self)
        ensures
            args@ == (service_id, now, None::<i64>),
    {
        Self { service_id, now, last_guest_log: None }
    }

    /// The service the guest runs for.
    pub fn service_id(&self) -> (id: &u32)
        ensures
            *id == self@.0,
    {
        &self.service_id
    }

    /// The slot the guest runs at.
    pub fn slot(&self) -> (slot: u32)
        ensures
            slot == self@.1,
    {
        self.now
    }

    /// The last value the guest logged, if any.
    pub fn last_guest_log(&self) -> (value: Option<i64>)
        ensures
            value == self@.2,
    {
        self.last_guest_log
    }

    /// Records a value that the guest logged; it replaces the one before.
    pub fn record_guest_log(&mut self, value: i64)
        ensures
            final(self)@ == (old(self)@.0, old(self)@.1, Some(value)),
    {
        self.last_guest_log = Some(value);
    }
}

/// What a work item asks the service to do.
pub struct InvokeData {
    /// The module to run, or `DEPLOY_CODE_MODULE` to deploy code.
    pub module: u32,
    /// The input of the module, or the code to deploy.
    pub input: Vec<u8>,
}

/// What the refine step does with an invocation.
pub enum RefinePlan {
    /// Hand the payload on to accumulation unchanged.
    PassThrough,
    /// Run the code stored under `code_key` for `module` on `input`, then
    /// hand the payload on; without stored code, refinement fails.
    Execute { module: u32, code_key: Vec<u8>, input: Vec<u8> },
}

/// What the accumulate step does with an invocation.
pub enum WorkItemPlan {
    /// Store `code` under `code_key`.
    Deploy { code_key: Vec<u8>, code: Vec<u8> },
    /// Run the code stored under `code_key` for `module` on `input`; without
    /// stored code, skip the item.
    Execute { module: u32, code_key: Vec<u8>, input: Vec<u8> },
}

/// The refine step: a deploying invocation passes through, any other runs
/// its module.
pub fn plan_refine(invocation: InvokeData) -> (plan: RefinePlan)
    ensures
        invocation.module == DEPLOY_CODE_MODULE ==> plan is PassThrough,
        invocation.module != DEPLOY_CODE_MODULE ==> (plan matches RefinePlan::Execute {
            module,
            code_key,
            input,
        } && module == invocation.module && code_key@ == module_key_spec(invocation.module as nat) && input@
            == invocation.input@),
{
    let InvokeData { module, input } = invocation;
    if module == DEPLOY_CODE_MODULE {
        RefinePlan::PassThrough
    } else {
        RefinePlan::Execute { module, code_key: module_key(module), input }
    }
}

/// The accumulate step for a work item: a deploying invocation stores its
/// input as the code of its own module number, any other runs its module.
pub fn plan_work_item(invocation: InvokeData) -> (plan: WorkItemPlan)
    ensures
        invocation.module == DEPLOY_CODE_MODULE ==> (plan matches WorkItemPlan::Deploy {
            code_key,
            code,
        } && code_key@ == module_key_spec(DEPLOY_CODE_MODULE as nat) && code@
            == invocation.input@),
        invocation.module != DEPLOY_CODE_MODULE ==> (plan matches WorkItemPlan::Execute {
            module,
            code_key,
            input,
        } && module == invocation.module && code_key@ == module_key_spec(invocation.module as nat) && input@
            == invocation.input@),
{
    let InvokeData { module, input } = invocation;
    if module == DEPLOY_CODE_MODULE {
        WorkItemPlan::Deploy { code_key: module_key(module), code: input }
    } else {
        WorkItemPlan::Execute { module, code_key: module_key(module), input }
    }
}

/// What the JAM codec decodes from the bytes of an invocation: the module
/// number and the input, in that order, or nothing when the bytes do not
/// hold them.
pub uninterp spec fn invocation_decoding(bytes: Seq<u8>) -> Option<(u32, Seq<u8>)>;

/// `Decode for (u32, Vec<u8>)` of the JAM codec, the encoding of an
/// invocation (its fields in order). The module number is the first four
/// bytes, little-endian; what follows them, a length-prefixed byte string, is
/// left to the name `invocation_decoding`.
#[verifier::external_body]
fn decode_invocation(bytes: &[u8]) -> (invocation: Option<InvokeData>)
    ensures
        match invocation {
            Some(i) => invocation_decoding(bytes@) == Some((i.module, i.input@)),
            None => invocation_decoding(bytes@) is None,
        },
        invocation matches Some(i) ==> bytes@.len() >= 4 && i.module == le_u32_value(bytes@),
{
    let (module, input) = <(u32, Vec<u8>) as jam_types::Decode>::decode(&mut &bytes[..]).ok()?;
    Some(InvokeData { module, input })
}

/// The refine step for a work-item payload: nothing when the payload does not
/// decode as an invocation, else the plan of `plan_refine` for it.
pub fn plan_refine_payload(payload: &[u8]) -> (plan: Option<RefinePlan>)
    ensures
        plan is None <==> invocation_decoding(payload@) is None,
        plan matches Some(p) ==> ({
            let (module, input) = invocation_decoding(payload@).unwrap();
            &&& module == DEPLOY_CODE_MODULE ==> p is PassThrough
            &&& module != DEPLOY_CODE_MODULE ==> (p matches RefinePlan::Execute {
                module: m,
                code_key,
                input: i,
            } && m == module && code_key@ == module_key_spec(module as nat) && i@ == input)
        }),
{
    match decode_invocation(payload) {
        Some(invocation) => Some(plan_refine(invocation)),
        None => None,
    }
}

/// The accumulate step for the output of a work item: nothing when it does
/// not decode as an invocation, else the plan of `plan_work_item` for it.
pub fn plan_work_item_output(output: &[u8]) -> (plan: Option<WorkItemPlan>)
    ensures
        plan is None <==> invocation_decoding(output@) is None,
        plan matches Some(p) ==> ({
            let (module, input) = invocation_decoding(output@).unwrap();
            &&& module == DEPLOY_CODE_MODULE ==> (p matches WorkItemPlan::Deploy { code_key, code }
                && code_key@ == module_key_spec(DEPLOY_CODE_MODULE as nat) && code@ == input)
            &&& module != DEPLOY_CODE_MODULE ==> (p matches WorkItemPlan::Execute {
                module: m,
                code_key,
                input: i,
            } && m == module && code_key@ == module_key_spec(module as nat) && i@ == input)
        }),
{
    match decode_invocation(output) {
        Some(invocation) => Some(plan_work_item(invocation)),
        None => None,
    }
}

/// Code is always deployed under the key of module `DEPLOY_CODE_MODULE`, and
/// no invocation ever runs the code stored under that key.
pub proof fn lemma_deployed_code_is_not_run(module: u32)
    requires
        module != DEPLOY_CODE_MODULE,
    ensures
        module_key_spec(module as nat) != module_key_spec(DEPLOY_CODE_MODULE as nat),
{
    lemma_module_keys_distinct(module as nat, DEPLOY_CODE_MODULE as nat);
}

} // verus!
