//! The simulation engine: it orchestrates one lifecycle call against the
//! registry, hands the backend its work as actions, takes the results back
//! as events, resolves outbound cross-contract execute messages by further
//! actions, aggregates the dispatch result attributes, and advances the
//! block height of each instance whose state-changing call succeeded.

use vstd::prelude::*;
use vstd::string::StringSliceAdditionalSpecFns;

use crate::engine::{spec_error_json, Registry};
use crate::json::{lit_bytes, push_lit};
use crate::keys::lex_lt;
use crate::types::{
    attrs_view, bytes_eq, coins_view, copy_bytes, copy_coins, Attribute, CallOutcome, Coin,
    CosmosMsg, Env, MessageInfo, QueryOutcome,
};

verus! {

/// How many dispatch frames may be live at once before a further
/// cross-contract execute is refused with a recursion error.
pub const DEFAULT_RECURSION_LIMIT: usize = 32;

/// The three lifecycle call kinds.
#[derive(Clone, Copy, Debug, PartialEq, Eq, Structural)]
pub enum CallKind {
    Instantiate,
    Execute,
    Query,
}

/// The call kind a raw kind string names, if any.
pub open spec fn spec_parse_call_kind(s: Seq<u8>) -> Option<CallKind> {
    if s == ("instantiate").spec_bytes() {
        Some(CallKind::Instantiate)
    } else if s == ("execute").spec_bytes() {
        Some(CallKind::Execute)
    } else if s == ("query").spec_bytes() {
        Some(CallKind::Query)
    } else {
        None
    }
}

/// Parses a raw kind string.
pub fn parse_call_kind(s: &[u8]) -> (r: Option<CallKind>)
    ensures
        r == spec_parse_call_kind(s@),
{
    let inst = lit_bytes("instantiate");
    if bytes_eq(s, inst.as_slice()) {
        return Some(CallKind::Instantiate);
    }
    let exec = lit_bytes("execute");
    if bytes_eq(s, exec.as_slice()) {
        return Some(CallKind::Execute);
    }
    let query = lit_bytes("query");
    if bytes_eq(s, query.as_slice()) {
        return Some(CallKind::Query);
    }
    None
}

/// The message a failed account lookup reports.
pub open spec fn spec_no_account_msg(a: Seq<u8>) -> Seq<u8> {
    ("No account found: ").spec_bytes() + a
}

/// The message a failed contract lookup at call entry reports.
pub open spec fn spec_no_engine_msg(a: Seq<u8>) -> Seq<u8> {
    ("No engine found: ").spec_bytes() + a
}

/// The message a dispatch to an unregistered contract records.
pub open spec fn spec_no_contract_msg(a: Seq<u8>) -> Seq<u8> {
    ("No such contract: ").spec_bytes() + a
}

/// The message an unknown call kind reports.
pub open spec fn spec_wrong_call_msg(k: Seq<u8>) -> Seq<u8> {
    ("wrong dispatcher call ").spec_bytes() + k
}

/// The message reported when gas runs out before the call can start.
pub open spec fn spec_out_of_gas_msg() -> Seq<u8> {
    ("Ran out of gas").spec_bytes()
}

/// The message an undersized address reports.
pub open spec fn spec_addr_too_short_msg() -> Seq<u8> {
    ("address too short").spec_bytes()
}

/// The message an overlong address reports.
pub open spec fn spec_addr_too_long_msg() -> Seq<u8> {
    ("address too long").spec_bytes()
}

/// The result JSON of a successful state-changing call.
pub open spec fn spec_success_json(kind: CallKind) -> Seq<u8> {
    match kind {
        CallKind::Instantiate => ("{\"message\":\"instantiate succeeded\"}").spec_bytes(),
        CallKind::Execute => ("{\"message\":\"execute succeeded\"}").spec_bytes(),
        CallKind::Query => Seq::empty(),
    }
}

/// The result JSON a finished state-changing call reports for each outcome.
pub open spec fn spec_outcome_result(kind: CallKind, o: CallOutcome) -> Seq<u8> {
    match o {
        CallOutcome::Response(_) => spec_success_json(kind),
        CallOutcome::ContractErr(e) => spec_error_json(e@),
        CallOutcome::VmErr(e) => spec_error_json(e@),
    }
}

/// Builds the success JSON for a state-changing kind.
pub fn success_json(kind: CallKind) -> (r: Vec<u8>)
    requires
        kind != CallKind::Query,
    ensures
        r@ == spec_success_json(kind),
{
    match kind {
        CallKind::Instantiate => lit_bytes("{\"message\":\"instantiate succeeded\"}"),
        CallKind::Execute => lit_bytes("{\"message\":\"execute succeeded\"}"),
        CallKind::Query => Vec::new(),
    }
}

/// A literal prefix followed by raw bytes, for the engine's messages.
pub fn concat_msg(prefix: &str, rest: &[u8]) -> (r: Vec<u8>)
    ensures
        r@ == prefix.spec_bytes() + rest@,
{
    let mut out: Vec<u8> = Vec::new();
    push_lit(&mut out, prefix);
    out.extend_from_slice(rest);
    proof {
        assert(out@ =~= prefix.spec_bytes() + rest@);
    }
    out
}

/// A copy of one attribute.
pub fn copy_attr(a: &Attribute) -> (r: Attribute)
    ensures
        r.key@ == a.key@,
        r.value@ == a.value@,
{
    Attribute { key: copy_bytes(a.key.as_slice()), value: copy_bytes(a.value.as_slice()) }
}

/// A copy of an attribute list.
pub fn copy_attrs(s: &Vec<Attribute>) -> (r: Vec<Attribute>)
    ensures
        attrs_view(r@) == attrs_view(s@),
{
    let mut out: Vec<Attribute> = Vec::new();
    let mut i: usize = 0;
    while i < s.len()
        invariant
            i <= s@.len(),
            out@.len() == i,
            forall|j: int|
                0 <= j < i ==> crate::types::attr_view(#[trigger] out@[j])
                    == crate::types::attr_view(s@[j]),
        decreases s@.len() - i,
    {
        out.push(copy_attr(&s[i]));
        i = i + 1;
    }
    proof {
        assert(attrs_view(out@) =~= attrs_view(s@));
    }
    out
}

/// One level of pending dispatch: the messages of one response, how far they
/// have been worked through, and the result attributes recorded for them.
#[derive(Debug)]
pub struct MessageFrame {
    sender: Vec<u8>,
    msgs: Vec<CosmosMsg>,
    idx: usize,
    results: Vec<Attribute>,
}

impl MessageFrame {
    /// The dispatching contract: the sender of every execute in this frame.
    pub closed spec fn spec_sender(self) -> Seq<u8> {
        self.sender@
    }

    /// The outbound messages of this frame.
    pub closed spec fn spec_msgs(self) -> Seq<CosmosMsg> {
        self.msgs@
    }

    /// How many messages have been fully worked through.
    pub closed spec fn spec_idx(self) -> nat {
        self.idx as nat
    }

    /// The result attributes recorded so far, one per resolved message.
    pub closed spec fn spec_results(self) -> Seq<Attribute> {
        self.results@
    }

    /// The cursor stays within the message list.
    pub open spec fn wf(self) -> bool {
        self.spec_idx() <= self.spec_msgs().len()
    }
}

/// Where a call session stands.
#[derive(Clone, Copy, Debug, PartialEq, Eq, Structural)]
pub enum SessionPhase {
    /// Waiting for the backend to finish the root call.
    AwaitRoot,
    /// Waiting for the backend to finish a dispatched execute on the
    /// instance at this index.
    AwaitSub { target: usize },
    /// The call is complete.
    Finished,
}

/// What the engine asks of its driver next.
#[derive(Debug)]
pub enum EngineAction {
    /// Run the named contract's entry point of the given kind on the backend
    /// and report the outcome as an event.
    Invoke {
        contract_index: usize,
        contract_addr: Vec<u8>,
        kind: CallKind,
        env: Env,
        info: MessageInfo,
        payload: Vec<u8>,
    },
    /// The call is complete.
    Done { output: CallOutput },
}

/// The finished call: its result JSON (or raw query data), the aggregated
/// attributes, and the root instance's gas spent.
#[derive(Debug)]
pub struct CallOutput {
    pub result: Vec<u8>,
    pub attributes: Vec<Attribute>,
    pub gas_used: u64,
}

/// What the backend reports back for one invoke action.
#[derive(Debug)]
pub enum BackendEvent {
    /// An instantiate or execute finished.
    Call { outcome: CallOutcome, gas_remaining: u64 },
    /// A query finished.
    Query { outcome: QueryOutcome, gas_remaining: u64 },
}

/// One lifecycle call in flight.
#[derive(Debug)]
pub struct CallSession {
    kind: CallKind,
    root_index: usize,
    gas_before: u64,
    root_result: Vec<u8>,
    root_attrs: Vec<Attribute>,
    stack: Vec<MessageFrame>,
    phase: SessionPhase,
}

/// The attributes a session would report if its dispatch ended now: the
/// root's own attributes followed by the root-level dispatch results.
pub open spec fn spec_done_attrs(root_attrs: Seq<Attribute>, stack: Seq<MessageFrame>) -> Seq<
    Attribute,
> {
    if stack.len() >= 1 {
        root_attrs + stack[0].spec_results()
    } else {
        root_attrs
    }
}

impl CallSession {
    /// The call kind.
    pub closed spec fn spec_kind(self) -> CallKind {
        self.kind
    }

    /// The root instance's index in the registry.
    pub closed spec fn spec_root_index(self) -> nat {
        self.root_index as nat
    }

    /// The root instance's gas remaining when the call began.
    pub closed spec fn spec_gas_before(self) -> u64 {
        self.gas_before
    }

    /// The root call's result JSON, once decided.
    pub closed spec fn spec_root_result(self) -> Seq<u8> {
        self.root_result@
    }

    /// The root contract's own attributes.
    pub closed spec fn spec_root_attrs(self) -> Seq<Attribute> {
        self.root_attrs@
    }

    /// The dispatch stack, outermost frame first.
    pub closed spec fn spec_stack(self) -> Seq<MessageFrame> {
        self.stack@
    }

    /// The session's phase.
    pub closed spec fn spec_phase(self) -> SessionPhase {
        self.phase
    }

    /// The phase, for the driver.
    pub fn phase(&self) -> (r: SessionPhase)
        ensures
            r == self.spec_phase(),
    {
        self.phase
    }

    /// Every frame's cursor is in bounds.
    pub open spec fn frames_wf(self) -> bool {
        forall|i: int| 0 <= i < self.spec_stack().len() ==> (#[trigger] self.spec_stack()[i]).wf()
    }

    /// The session's consistency with the simulation it belongs to: its root
    /// index names an instance whose gas has not grown since the call began,
    /// and while a dispatched execute is awaited, the awaited target is the
    /// registered contract named by the current message.
    pub open spec fn inv(self, sim: Simulation) -> bool {
        &&& self.spec_root_index() < sim.spec_registry().instances().len()
        &&& (self.spec_phase() is AwaitRoot ==> self.spec_stack().len() == 0)
        &&& sim.spec_registry().instances()[self.spec_root_index() as int].spec_gas_remaining()
            <= self.spec_gas_before()
        &&& self.frames_wf()
        &&& (self.spec_phase() matches SessionPhase::AwaitSub { target } ==> {
            let st = self.spec_stack();
            &&& target < sim.spec_registry().instances().len()
            &&& st.len() >= 1
            &&& st.last().spec_idx() < st.last().spec_msgs().len()
            &&& (st.last().spec_msgs()[st.last().spec_idx() as int] matches
                CosmosMsg::WasmExecute { contract_addr, .. } && contract_addr@
                == sim.spec_registry().instances()[target as int].spec_address())
        })
    }
}

/// The simulation engine: the registry, the configured accounts, and the
/// dispatch depth limit.
#[derive(Debug)]
pub struct Simulation {
    pub registry: Registry,
    accounts: Vec<MessageInfo>,
    pub recursion_limit: usize,
}

impl Simulation {
    /// The configured accounts.
    pub closed spec fn spec_accounts(self) -> Seq<MessageInfo> {
        self.accounts@
    }

    /// The registry, for specifications.
    pub closed spec fn spec_registry(self) -> Registry {
        self.registry
    }

    /// The dispatch depth limit, for specifications.
    pub closed spec fn spec_recursion_limit(self) -> nat {
        self.recursion_limit as nat
    }

    /// The engine is well formed when its registry is.
    pub open spec fn wf(self) -> bool {
        self.spec_registry().wf()
    }

    /// A fresh engine: no contracts, no accounts.
    pub fn new() -> (r: Simulation)
        ensures
            r.wf(),
            r.spec_registry().instances().len() == 0,
            r.spec_accounts().len() == 0,
            r.spec_recursion_limit() == DEFAULT_RECURSION_LIMIT,
    {
        Simulation {
            registry: Registry::new(),
            accounts: Vec::new(),
            recursion_limit: DEFAULT_RECURSION_LIMIT,
        }
    }

    /// Adds an account with its initial funds.
    pub fn add_account(&mut self, sender: Vec<u8>, funds: Vec<Coin>)
        requires
            old(self).wf(),
        ensures
            final(self).wf(),
            final(self).spec_registry() == old(self).spec_registry(),
            final(self).spec_accounts().len() == old(self).spec_accounts().len() + 1,
            final(self).spec_accounts().drop_last() == old(self).spec_accounts(),
            final(self).spec_accounts().last().sender@ == sender@,
            coins_view(final(self).spec_accounts().last().funds@) == coins_view(funds@),
    {
        self.accounts.push(MessageInfo { sender, funds });
        proof {
            assert(self.spec_accounts().drop_last() =~= old(self).spec_accounts());
        }
    }

    /// The run's default account: the lexicographically first configured
    /// address, when any account exists.
    pub fn default_account(&self) -> (r: Option<Vec<u8>>)
        ensures
            r is Some <==> self.spec_accounts().len() > 0,
            r matches Some(a) ==> (exists|i: int|
                0 <= i < self.spec_accounts().len() && (#[trigger] self.spec_accounts()[i]).sender@
                    == a@) && (forall|j: int|
                0 <= j < self.spec_accounts().len() ==> !lex_lt(
                    (#[trigger] self.spec_accounts()[j]).sender@,
                    a@,
                )),
    {
        if self.accounts.len() == 0 {
            return None;
        }
        let mut best: usize = 0;
        let mut i: usize = 1;
        proof {
            crate::keys::lemma_lex_trichotomy(
                self.spec_accounts()[0].sender@,
                self.spec_accounts()[0].sender@,
            );
        }
        while i < self.accounts.len()
            invariant
                best < i <= self.spec_accounts().len(),
                forall|j: int|
                    0 <= j < i ==> !lex_lt(
                        (#[trigger] self.spec_accounts()[j]).sender@,
                        self.spec_accounts()[best as int].sender@,
                    ),
            decreases self.spec_accounts().len() - i,
        {
            match crate::keys::compare_keys(
                self.accounts[i].sender.as_slice(),
                self.accounts[best].sender.as_slice(),
            ) {
                crate::keys::KeyOrdering::Less => {
                    proof {
                        let ghost ob = best as int;
                        assert forall|j: int| 0 <= j < i + 1 implies !lex_lt(
                            (#[trigger] self.spec_accounts()[j]).sender@,
                            self.spec_accounts()[i as int].sender@,
                        ) by {
                            if j < i {
                                crate::keys::lemma_lex_trichotomy(
                                    self.spec_accounts()[j].sender@,
                                    self.spec_accounts()[i as int].sender@,
                                );
                                if lex_lt(
                                    self.spec_accounts()[j].sender@,
                                    self.spec_accounts()[i as int].sender@,
                                ) {
                                    crate::keys::lemma_lex_transitive(
                                        self.spec_accounts()[j].sender@,
                                        self.spec_accounts()[i as int].sender@,
                                        self.spec_accounts()[ob].sender@,
                                    );
                                }
                            } else {
                                crate::keys::lemma_lex_trichotomy(
                                    self.spec_accounts()[j].sender@,
                                    self.spec_accounts()[i as int].sender@,
                                );
                            }
                        }
                    }
                    best = i;
                },
                _ => {
                    proof {
                        crate::keys::lemma_lex_trichotomy(
                            self.spec_accounts()[i as int].sender@,
                            self.spec_accounts()[best as int].sender@,
                        );
                    }
                },
            }
            i = i + 1;
        }
        Some(copy_bytes(self.accounts[best].sender.as_slice()))
    }

    /// The index of the first account with this sender address, if any.
    fn find_account(&self, sender: &[u8]) -> (r: Option<usize>)
        ensures
            r matches Some(i) ==> i < self.spec_accounts().len() && self.spec_accounts()[
                i as int
            ].sender@ == sender@,
            r is None ==> forall|j: int|
                0 <= j < self.spec_accounts().len() ==> (#[trigger] self.spec_accounts()[j]).sender@
                    != sender@,
    {
        let mut i: usize = 0;
        while i < self.accounts.len()
            invariant
                i <= self.spec_accounts().len(),
                forall|j: int|
                    0 <= j < i ==> (#[trigger] self.spec_accounts()[j]).sender@ != sender@,
            decreases self.spec_accounts().len() - i,
        {
            if bytes_eq(self.accounts[i].sender.as_slice(), sender) {
                return Some(i);
            }
            i = i + 1;
        }
        None
    }
}

/// The address a cross-contract execute message targets.
pub open spec fn msg_exec_addr(m: CosmosMsg) -> Seq<u8> {
    match m {
        CosmosMsg::WasmExecute { contract_addr, .. } => contract_addr@,
        CosmosMsg::Opaque { .. } => Seq::empty(),
    }
}

/// The payload a cross-contract execute message carries.
pub open spec fn msg_exec_payload(m: CosmosMsg) -> Seq<u8> {
    match m {
        CosmosMsg::WasmExecute { msg, .. } => msg@,
        CosmosMsg::Opaque { .. } => Seq::empty(),
    }
}

/// The funds a cross-contract execute message attaches.
pub open spec fn msg_exec_funds(m: CosmosMsg) -> Seq<(Seq<u8>, u128)> {
    match m {
        CosmosMsg::WasmExecute { funds, .. } => coins_view(funds@),
        CosmosMsg::Opaque { .. } => Seq::empty(),
    }
}

/// The description an opaque message carries.
pub open spec fn msg_opaque_desc(m: CosmosMsg) -> Seq<u8> {
    match m {
        CosmosMsg::WasmExecute { .. } => Seq::empty(),
        CosmosMsg::Opaque { description } => description@,
    }
}

/// The attribute view an opaque message is reported as.
pub open spec fn opaque_attr_view(m: CosmosMsg) -> (Seq<u8>, Seq<u8>) {
    (("message").spec_bytes(), msg_opaque_desc(m))
}

/// The session holds exactly one message still to dispatch, at the root
/// level, and it is an opaque (non-execute) message.
pub open spec fn single_pending_opaque(sess: CallSession) -> bool {
    &&& sess.spec_stack().len() == 1
    &&& sess.spec_stack()[0].spec_idx() + 1 == sess.spec_stack()[0].spec_msgs().len()
    &&& sess.spec_stack()[0].spec_msgs().last() is Opaque
}

/// The session holds exactly one message still to dispatch, at the root
/// level, and it is a cross-contract execute.
pub open spec fn single_pending_exec(sess: CallSession) -> bool {
    &&& sess.spec_stack().len() == 1
    &&& sess.spec_stack()[0].spec_idx() + 1 == sess.spec_stack()[0].spec_msgs().len()
    &&& sess.spec_stack()[0].spec_msgs().last() is WasmExecute
}

/// The target address of that one pending execute.
pub open spec fn pending_addr(sess: CallSession) -> Seq<u8> {
    msg_exec_addr(sess.spec_stack()[0].spec_msgs().last())
}

/// Pushing an attribute pushes its view.
pub proof fn lemma_attrs_view_push(s: Seq<Attribute>, a: Attribute)
    ensures
        attrs_view(s.push(a)) == attrs_view(s).push(crate::types::attr_view(a)),
{
    assert(attrs_view(s.push(a)) =~= attrs_view(s).push(crate::types::attr_view(a)));
}

/// Appending attribute lists appends their views.
pub proof fn lemma_attrs_view_add(a: Seq<Attribute>, b: Seq<Attribute>)
    ensures
        attrs_view(a + b) == attrs_view(a) + attrs_view(b),
{
    assert(attrs_view(a + b) =~= attrs_view(a) + attrs_view(b));
}

/// How much dispatch work the stack still holds.
pub open spec fn frames_work(s: Seq<MessageFrame>) -> int
    decreases s.len(),
{
    if s.len() == 0 {
        0
    } else {
        frames_work(s.drop_last()) + (s.last().spec_msgs().len() - s.last().spec_idx()) + 1
    }
}

/// Dispatch work is never negative on well-formed frames.
proof fn lemma_frames_work_nonneg(s: Seq<MessageFrame>)
    requires
        forall|i: int| 0 <= i < s.len() ==> (#[trigger] s[i]).wf(),
    ensures
        frames_work(s) >= 0,
    decreases s.len(),
{
    if s.len() > 0 {
        lemma_frames_work_nonneg(s.drop_last());
        assert(s[s.len() - 1].wf());
    }
}

/// Recording a result on the top frame keeps every frame's messages and
/// sender, and only appends to result lists: the relation each frame bears
/// to its state at the start of the walk is preserved.
proof fn lemma_frames_preserved_after_record(
    oldstack: Seq<MessageFrame>,
    pre: Seq<MessageFrame>,
    post: Seq<MessageFrame>,
    attr: Attribute,
)
    requires
        pre.len() >= 1,
        post.len() == pre.len(),
        pre.len() <= oldstack.len(),
        post.drop_last() == pre.drop_last(),
        post.last().spec_msgs() == pre.last().spec_msgs(),
        post.last().spec_sender() == pre.last().spec_sender(),
        post.last().spec_results() == pre.last().spec_results().push(attr),
        post.last().spec_idx() == pre.last().spec_idx() + 1,
        forall|i: int|
            0 <= i < pre.len() ==> {
                &&& (#[trigger] pre[i]).spec_msgs() == oldstack[i].spec_msgs()
                &&& pre[i].spec_sender() == oldstack[i].spec_sender()
                &&& pre[i].spec_results().len() >= oldstack[i].spec_results().len()
                &&& pre[i].spec_results().take(oldstack[i].spec_results().len() as int)
                    == oldstack[i].spec_results()
                &&& pre[i].spec_idx() >= oldstack[i].spec_idx()
            },
    ensures
        forall|i: int|
            0 <= i < post.len() ==> {
                &&& (#[trigger] post[i]).spec_msgs() == oldstack[i].spec_msgs()
                &&& post[i].spec_sender() == oldstack[i].spec_sender()
                &&& post[i].spec_results().len() >= oldstack[i].spec_results().len()
                &&& post[i].spec_results().take(oldstack[i].spec_results().len() as int)
                    == oldstack[i].spec_results()
                &&& post[i].spec_idx() >= oldstack[i].spec_idx()
            },
{
    assert forall|i: int| 0 <= i < post.len() implies {
        &&& (#[trigger] post[i]).spec_msgs() == oldstack[i].spec_msgs()
        &&& post[i].spec_sender() == oldstack[i].spec_sender()
        &&& post[i].spec_results().len() >= oldstack[i].spec_results().len()
        &&& post[i].spec_results().take(oldstack[i].spec_results().len() as int)
            == oldstack[i].spec_results()
        &&& post[i].spec_idx() >= oldstack[i].spec_idx()
    } by {
        if i < post.len() - 1 {
            assert(post[i] == post.drop_last()[i]);
            assert(pre[i] == pre.drop_last()[i]);
            assert(post[i] == pre[i]);
        } else {
            assert(post[i] == post.last());
            assert(pre[i] == pre.last());
            let k = oldstack[i].spec_results().len() as int;
            assert(pre.last().spec_results().take(k) == oldstack[i].spec_results());
            assert(post.last().spec_results().take(k) =~= pre.last().spec_results().take(k));
        }
    }
}

impl Simulation {
    /// Walks the dispatch stack: reports an opaque message as an attribute,
    /// records a failure attribute for an execute whose target is
    /// unregistered or whose depth would pass the recursion limit, hands the
    /// next resolvable execute to the driver, pops finished frames (folding
    /// the root frame's results into the final attribute list), and
    /// completes the call when nothing is left.
    fn advance(&self, session: &mut CallSession) -> (r: EngineAction)
        requires
            self.wf(),
            old(session).spec_root_index() < self.spec_registry().instances().len(),
            self.spec_registry().instances()[old(session).spec_root_index() as int].spec_gas_remaining()
                <= old(session).spec_gas_before(),
            old(session).frames_wf(),
        ensures
            final(session).spec_kind() == old(session).spec_kind(),
            final(session).spec_root_index() == old(session).spec_root_index(),
            final(session).spec_gas_before() == old(session).spec_gas_before(),
            final(session).spec_root_result() == old(session).spec_root_result(),
            final(session).inv(*self),
            (r is Done) <==> (final(session).spec_phase() is Finished),
            r is Done ==> final(session).spec_stack().len() == 0,
            r matches EngineAction::Done { output } ==> ({
                &&& output.result@ == old(session).spec_root_result()
                &&& output.gas_used == old(session).spec_gas_before() - self.spec_registry().instances()[old(session).spec_root_index() as int].spec_gas_remaining()
            }),
            r matches EngineAction::Invoke { contract_index, contract_addr, kind, env, info, payload } ==> ({
                &&& contract_index < self.spec_registry().instances().len()
                &&& kind == CallKind::Execute
                &&& contract_addr@ == self.spec_registry().instances()[contract_index as int].spec_address()
                &&& final(session).spec_phase() == (SessionPhase::AwaitSub { target: contract_index })
                &&& final(session).spec_stack().len() >= 1
                &&& final(session).spec_stack().len() <= old(session).spec_stack().len()
                &&& final(session).spec_root_attrs() == old(session).spec_root_attrs()
                &&& (forall|i: int|
                    0 <= i < final(session).spec_stack().len() ==> {
                        &&& (#[trigger] final(session).spec_stack()[i]).spec_msgs() == old(session).spec_stack()[i].spec_msgs()
                        &&& final(session).spec_stack()[i].spec_sender() == old(session).spec_stack()[i].spec_sender()
                        &&& final(session).spec_stack()[i].spec_results().len() >= old(session).spec_stack()[i].spec_results().len()
                        &&& final(session).spec_stack()[i].spec_results().take(
                            old(session).spec_stack()[i].spec_results().len() as int,
                        ) == old(session).spec_stack()[i].spec_results()
                        &&& final(session).spec_stack()[i].spec_idx() >= old(session).spec_stack()[i].spec_idx()
                    })
                &&& ({
                    let top = final(session).spec_stack().last();
                    let m = top.spec_msgs()[top.spec_idx() as int];
                    &&& top.spec_idx() < top.spec_msgs().len()
                    &&& contract_addr@ == msg_exec_addr(m)
                    &&& payload@ == msg_exec_payload(m)
                    &&& coins_view(info.funds@) == msg_exec_funds(m)
                    &&& info.sender@ == top.spec_sender()
                    &&& env.block.height == self.spec_registry().instances()[
                        contract_index as int
                    ].spec_height()
                })
            }),
            old(session).spec_stack().len() == 0 ==> (r matches EngineAction::Done { output }
                && attrs_view(output.attributes@) == attrs_view(old(session).spec_root_attrs())),
            (old(session).spec_stack().len() == 1 && old(session).spec_stack()[0].spec_idx() == old(session).spec_stack()[0].spec_msgs().len()) ==> (r matches EngineAction::Done { output }
                && attrs_view(output.attributes@) == attrs_view(
                old(session).spec_root_attrs() + old(session).spec_stack()[0].spec_results(),
            )),
            single_pending_opaque(*old(session)) ==> (r matches EngineAction::Done { output }
                && attrs_view(output.attributes@) == attrs_view(
                old(session).spec_root_attrs() + old(session).spec_stack()[0].spec_results(),
            ).push(opaque_attr_view(old(session).spec_stack()[0].spec_msgs().last()))),
            (single_pending_exec(*old(session)) && !crate::engine::reg_has(
                self.spec_registry().instances(),
                pending_addr(*old(session)),
            )) ==> (r matches EngineAction::Done { output } && attrs_view(output.attributes@)
                == attrs_view(
                old(session).spec_root_attrs() + old(session).spec_stack()[0].spec_results(),
            ).push(
                (
                    pending_addr(*old(session)),
                    spec_error_json(spec_no_contract_msg(pending_addr(*old(session)))),
                ),
            )),
            (single_pending_exec(*old(session)) && crate::engine::reg_has(
                self.spec_registry().instances(),
                pending_addr(*old(session)),
            ) && 1 < self.spec_recursion_limit()) ==> (r matches EngineAction::Invoke {
                contract_index,
                contract_addr,
                kind,
                env,
                info,
                payload,
            } && ({
                let m = old(session).spec_stack()[0].spec_msgs().last();
                &&& contract_index == crate::engine::reg_index(
                    self.spec_registry().instances(),
                    pending_addr(*old(session)),
                )
                &&& payload@ == msg_exec_payload(m)
                &&& coins_view(info.funds@) == msg_exec_funds(m)
                &&& info.sender@ == old(session).spec_stack()[0].spec_sender()
                &&& env.block.height == self.spec_registry().instances()[
                    contract_index as int
                ].spec_height()
                &&& final(session).spec_stack() == old(session).spec_stack()
            })),
    {
        let ghost g_empty: Seq<(Seq<u8>, Seq<u8>)> = Seq::empty();
        let ghost mut recorded: Seq<(Seq<u8>, Seq<u8>)> = g_empty;
        let ghost olddone = attrs_view(
            spec_done_attrs(old(session).spec_root_attrs(), old(session).spec_stack()),
        );
        proof {
            lemma_frames_work_nonneg(session.spec_stack());
        }
        loop
            invariant
                g_empty == Seq::<(Seq<u8>, Seq<u8>)>::empty(),
                self.wf(),
                session.spec_kind() == old(session).spec_kind(),
                session.spec_root_index() == old(session).spec_root_index(),
                session.spec_gas_before() == old(session).spec_gas_before(),
                session.spec_root_result() == old(session).spec_root_result(),
                session.frames_wf(),
                old(session).spec_root_index() < self.spec_registry().instances().len(),
                self.spec_registry().instances()[old(session).spec_root_index() as int].spec_gas_remaining()
                    <= old(session).spec_gas_before(),
                olddone == attrs_view(
                    spec_done_attrs(old(session).spec_root_attrs(), old(session).spec_stack()),
                ),
                session.spec_stack().len() <= old(session).spec_stack().len(),
                session.spec_stack().len() >= 1 ==> session.spec_root_attrs() == old(session).spec_root_attrs(),
                forall|i: int|
                    0 <= i < session.spec_stack().len() ==> {
                        &&& (#[trigger] session.spec_stack()[i]).spec_msgs() == old(session).spec_stack()[i].spec_msgs()
                        &&& session.spec_stack()[i].spec_sender() == old(session).spec_stack()[i].spec_sender()
                        &&& session.spec_stack()[i].spec_results().len() >= old(session).spec_stack()[i].spec_results().len()
                        &&& session.spec_stack()[i].spec_results().take(
                            old(session).spec_stack()[i].spec_results().len() as int,
                        ) == old(session).spec_stack()[i].spec_results()
                        &&& session.spec_stack()[i].spec_idx() >= old(session).spec_stack()[i].spec_idx()
                    },
                attrs_view(spec_done_attrs(session.spec_root_attrs(), session.spec_stack()))
                    == olddone + recorded,
                old(session).spec_stack().len() == 0 ==> recorded == g_empty,
                (old(session).spec_stack().len() == 1 && old(session).spec_stack()[0].spec_idx()
                    == old(session).spec_stack()[0].spec_msgs().len()) ==> (recorded == g_empty && (
                session.spec_stack() == old(session).spec_stack() || session.spec_stack().len()
                    == 0)),
                single_pending_opaque(*old(session)) ==> ((recorded == g_empty
                    && session.spec_stack() == old(session).spec_stack()) || (recorded
                    == g_empty.push(
                    opaque_attr_view(old(session).spec_stack()[0].spec_msgs().last()),
                ) && (session.spec_stack().len() == 0 || (session.spec_stack().len() == 1
                    && session.spec_stack()[0].spec_idx()
                    == session.spec_stack()[0].spec_msgs().len())))),
                (single_pending_exec(*old(session)) && !crate::engine::reg_has(
                    self.spec_registry().instances(),
                    pending_addr(*old(session)),
                )) ==> ((recorded == g_empty && session.spec_stack() == old(session).spec_stack())
                    || (recorded == g_empty.push(
                    (
                        pending_addr(*old(session)),
                        spec_error_json(spec_no_contract_msg(pending_addr(*old(session)))),
                    ),
                ) && (session.spec_stack().len() == 0 || (session.spec_stack().len() == 1
                    && session.spec_stack()[0].spec_idx()
                    == session.spec_stack()[0].spec_msgs().len())))),
                (single_pending_exec(*old(session)) && crate::engine::reg_has(
                    self.spec_registry().instances(),
                    pending_addr(*old(session)),
                ) && 1 < self.spec_recursion_limit()) ==> session.spec_stack() == old(session).spec_stack(),
            decreases frames_work(session.spec_stack()),
        {
            proof {
                lemma_frames_work_nonneg(session.spec_stack());
            }
            let depth = session.stack.len();
            if depth == 0 {
                session.phase = SessionPhase::Finished;
                let result = copy_bytes(session.root_result.as_slice());
                let attributes = copy_attrs(&session.root_attrs);
                let gas_now = self.registry.instance(session.root_index).gas_remaining();
                let gas_used = session.gas_before - gas_now;
                proof {
                    assert(attrs_view(session.spec_root_attrs()) == olddone + recorded);
                    assert(olddone + g_empty =~= olddone);
                    if single_pending_exec(*old(session)) && !crate::engine::reg_has(
                        self.spec_registry().instances(),
                        pending_addr(*old(session)),
                    ) {
                        let a = (
                            pending_addr(*old(session)),
                            spec_error_json(spec_no_contract_msg(pending_addr(*old(session)))),
                        );
                        assert(recorded == g_empty.push(a));
                        assert(olddone + g_empty.push(a) =~= olddone.push(a));
                    }
                    if single_pending_opaque(*old(session)) {
                        let a = opaque_attr_view(old(session).spec_stack()[0].spec_msgs().last());
                        assert(recorded == g_empty.push(a));
                        assert(olddone + g_empty.push(a) =~= olddone.push(a));
                    }
                }
                return EngineAction::Done {
                    output: CallOutput { result, attributes, gas_used },
                };
            }
            let midx = session.stack[depth - 1].idx;
            let mlen = session.stack[depth - 1].msgs.len();
            if midx >= mlen {
                let ghost prestack = session.spec_stack();
                match session.stack.pop() {
                    Some(frame) => {
                        if session.stack.len() == 0 {
                            let mut moved = frame;
                            let ghost preattrs = session.spec_root_attrs();
                            session.root_attrs.append(&mut moved.results);
                            proof {
                                assert(spec_done_attrs(
                                    session.spec_root_attrs(),
                                    session.spec_stack(),
                                ) == preattrs + prestack[0].spec_results());
                            }
                        }
                        proof {
                            assert(session.spec_stack() =~= prestack.drop_last());
                            if session.spec_stack().len() > 0 {
                                assert(session.spec_stack()[0] == prestack[0]);
                            }
                            assert(prestack[prestack.len() - 1].wf());
                            lemma_frames_work_nonneg(session.spec_stack());
                            assert(frames_work(prestack) == frames_work(prestack.drop_last()) + (
                            prestack.last().spec_msgs().len() - prestack.last().spec_idx()) + 1);
                            assert(frames_work(session.spec_stack()) < frames_work(prestack));
                        }
                    },
                    None => {
                        proof {
                            assert(false);
                        }
                    },
                }
                continue ;
            }
            let mut exec_addr: Vec<u8> = Vec::new();
            let mut exec_payload: Vec<u8> = Vec::new();
            let mut exec_funds: Vec<Coin> = Vec::new();
            let mut opaque_desc: Vec<u8> = Vec::new();
            let mut is_exec = false;
            match &session.stack[depth - 1].msgs[midx] {
                CosmosMsg::WasmExecute { contract_addr, msg, funds } => {
                    exec_addr = copy_bytes(contract_addr.as_slice());
                    exec_payload = copy_bytes(msg.as_slice());
                    exec_funds = copy_coins(funds);
                    is_exec = true;
                },
                CosmosMsg::Opaque { description } => {
                    opaque_desc = copy_bytes(description.as_slice());
                },
            }
            let ghost cur_msg = session.spec_stack()[depth - 1].spec_msgs()[midx as int];
            if !is_exec {
                let attr = Attribute { key: lit_bytes("message"), value: opaque_desc };
                proof {
                    assert(crate::types::attr_view(attr) == opaque_attr_view(cur_msg));
                    if depth == 1 {
                        recorded = recorded.push(crate::types::attr_view(attr));
                    }
                }
                let ghost prestate = session.spec_stack();

                self.record_result(session, attr, Ghost(olddone), Ghost(recorded));

                proof {
                    lemma_frames_preserved_after_record(
                        old(session).spec_stack(),
                        prestate,
                        session.spec_stack(),
                        attr,
                    );
                    lemma_frames_work_nonneg(session.spec_stack());
                }
                continue ;
            }
            match self.registry.find(exec_addr.as_slice()) {
                None => {
                    let msgtext = concat_msg("No such contract: ", exec_addr.as_slice());
                    let attrval = crate::engine::error_json(msgtext.as_slice());
                    let attr = Attribute { key: exec_addr, value: attrval };
                    proof {
                        if depth == 1 {
                            recorded = recorded.push(crate::types::attr_view(attr));
                        }
                    }
                    let ghost prestate = session.spec_stack();

                    self.record_result(session, attr, Ghost(olddone), Ghost(recorded));

                    proof {
                        lemma_frames_preserved_after_record(
                            old(session).spec_stack(),
                            prestate,
                            session.spec_stack(),
                            attr,
                        );
                        lemma_frames_work_nonneg(session.spec_stack());
                    }
                    continue ;
                },
                Some(t) => {
                    if depth >= self.recursion_limit {
                        let attrval = crate::engine::error_json(
                            lit_bytes("Recursion limit exceeded").as_slice(),
                        );
                        let attr = Attribute { key: exec_addr, value: attrval };
                        proof {
                            if depth == 1 {
                                recorded = recorded.push(crate::types::attr_view(attr));
                            }
                        }
                        let ghost prestate = session.spec_stack();

                        self.record_result(session, attr, Ghost(olddone), Ghost(recorded));

                        proof {
                            lemma_frames_preserved_after_record(
                                old(session).spec_stack(),
                                prestate,
                                session.spec_stack(),
                                attr,
                            );
                            lemma_frames_work_nonneg(session.spec_stack());
                        }
                        continue ;
                    }
                    session.phase = SessionPhase::AwaitSub { target: t };
                    let inst = self.registry.instance(t);
                    let sender = copy_bytes(session.stack[depth - 1].sender.as_slice());
                    return EngineAction::Invoke {
                        contract_index: t,
                        contract_addr: exec_addr,
                        kind: CallKind::Execute,
                        env: inst.env_copy(),
                        info: MessageInfo { sender, funds: exec_funds },
                        payload: exec_payload,
                    };
                },
            }
        }
    }

    /// Records a dispatch-failure attribute for the current message of the
    /// top frame and moves past it.
    fn record_result(
        &self,
        session: &mut CallSession,
        attr: Attribute,
        Ghost(olddone): Ghost<Seq<(Seq<u8>, Seq<u8>)>>,
        Ghost(recorded): Ghost<Seq<(Seq<u8>, Seq<u8>)>>,
    )
        requires
            old(session).spec_stack().len() >= 1,
            old(session).frames_wf(),
            old(session).spec_stack().last().spec_idx() < old(session).spec_stack().last().spec_msgs().len(),
            old(session).spec_stack().len() == 1 ==> attrs_view(
                spec_done_attrs(old(session).spec_root_attrs(), old(session).spec_stack()),
            ).push(crate::types::attr_view(attr)) == olddone + recorded,
            old(session).spec_stack().len() > 1 ==> attrs_view(
                spec_done_attrs(old(session).spec_root_attrs(), old(session).spec_stack()),
            ) == olddone + recorded,
        ensures
            final(session).spec_kind() == old(session).spec_kind(),
            final(session).spec_root_index() == old(session).spec_root_index(),
            final(session).spec_gas_before() == old(session).spec_gas_before(),
            final(session).spec_root_result() == old(session).spec_root_result(),
            final(session).spec_root_attrs() == old(session).spec_root_attrs(),
            final(session).spec_phase() == old(session).spec_phase(),
            final(session).frames_wf(),
            final(session).spec_stack().len() == old(session).spec_stack().len(),
            final(session).spec_stack().drop_last() == old(session).spec_stack().drop_last(),
            final(session).spec_stack().last().spec_idx() == old(session).spec_stack().last().spec_idx() + 1,
            final(session).spec_stack().last().spec_msgs() == old(session).spec_stack().last().spec_msgs(),
            final(session).spec_stack().last().spec_sender() == old(session).spec_stack().last().spec_sender(),
            final(session).spec_stack().last().spec_results() == old(session).spec_stack().last().spec_results().push(attr),
            attrs_view(spec_done_attrs(final(session).spec_root_attrs(), final(session).spec_stack()))
                == olddone + recorded,
            frames_work(final(session).spec_stack()) == frames_work(old(session).spec_stack()) - 1,
    {
        let ghost prestack = session.spec_stack();
        match session.stack.pop() {
            Some(mut frame) => {
                proof {
                    assert(frame == prestack.last());
                    assert(frame.spec_idx() < frame.spec_msgs().len());
                }
                if frame.idx < frame.msgs.len() {
                    frame.idx = frame.idx + 1;
                } else {
                    proof {
                        assert(false);
                    }
                }
                frame.results.push(attr);
                session.stack.push(frame);
            },
            None => {
                proof {
                    assert(false);
                }
            },
        }
        proof {
            assert(session.spec_stack().drop_last() =~= prestack.drop_last());
            if prestack.len() == 1 {
                lemma_attrs_view_push(prestack[0].spec_results(), attr);
                lemma_attrs_view_add(
                    session.spec_root_attrs(),
                    prestack[0].spec_results(),
                );
                lemma_attrs_view_add(
                    session.spec_root_attrs(),
                    prestack[0].spec_results().push(attr),
                );
                assert((session.spec_root_attrs() + prestack[0].spec_results().push(attr))
                    =~= (session.spec_root_attrs() + prestack[0].spec_results()).push(attr));
                assert(session.spec_stack()[0].spec_results() == prestack[0].spec_results().push(
                    attr,
                ));
            } else {
                assert(session.spec_stack()[0] == prestack[0]);
            }
            assert(frames_work(session.spec_stack()) == frames_work(
                session.spec_stack().drop_last(),
            ) + (session.spec_stack().last().spec_msgs().len()
                - session.spec_stack().last().spec_idx()) + 1);
            assert(frames_work(prestack) == frames_work(prestack.drop_last()) + (
            prestack.last().spec_msgs().len() - prestack.last().spec_idx()) + 1);
        }
    }
}


/// The gas-remaining figure an event reports.
pub open spec fn event_gas(e: BackendEvent) -> u64 {
    match e {
        BackendEvent::Call { gas_remaining, .. } => gas_remaining,
        BackendEvent::Query { gas_remaining, .. } => gas_remaining,
    }
}

/// Whether some account in `s` has this sender address.
pub open spec fn accounts_have(s: Seq<MessageInfo>, a: Seq<u8>) -> bool {
    exists|i: int| 0 <= i < s.len() && (#[trigger] s[i]).sender@ == a
}

impl Simulation {
    /// A session that is already over, for calls refused at the door.
    fn finished_session(kind: CallKind) -> (r: CallSession)
        ensures
            r.spec_phase() is Finished,
    {
        CallSession {
            kind,
            root_index: 0,
            gas_before: 0,
            root_result: Vec::new(),
            root_attrs: Vec::new(),
            stack: Vec::new(),
            phase: SessionPhase::Finished,
        }
    }

    /// A call refused at the door: a finished session and an error output.
    fn refused(kind: CallKind, msg: Vec<u8>) -> (r: (CallSession, EngineAction))
        ensures
            r.0.spec_phase() is Finished,
            r.1 matches EngineAction::Done { output } && output.result@ == spec_error_json(msg@)
                && output.attributes@.len() == 0 && output.gas_used == 0,
    {
        let result = crate::engine::error_json(msg.as_slice());
        (
            Self::finished_session(kind),
            EngineAction::Done {
                output: CallOutput { result, attributes: Vec::new(), gas_used: 0 },
            },
        )
    }

    /// Opens one lifecycle call: validates the kind, the calling account and
    /// the target contract, charges the fixed address-canonicalization cost
    /// against the instance's remaining gas — refusing the call outright,
    /// with no state touched, when the gas does not even cover that — and
    /// hands the driver the root invoke action.
    pub fn begin_call(&mut self, contract: &[u8], kind_raw: &[u8], payload: &[u8], sender: &[u8])
        -> (r: (CallSession, EngineAction))
        requires
            old(self).wf(),
        ensures
            final(self).wf(),
            final(self).spec_accounts() == old(self).spec_accounts(),
            final(self).spec_recursion_limit() == old(self).spec_recursion_limit(),
            (r.0.spec_phase() is Finished) <==> (r.1 is Done),
            spec_parse_call_kind(kind_raw@) is None ==> (*final(self) == *old(self) && (
            r.1 matches EngineAction::Done { output } && output.result@ == spec_error_json(
                spec_wrong_call_msg(kind_raw@),
            ) && output.attributes@.len() == 0 && output.gas_used == 0)),
            (spec_parse_call_kind(kind_raw@) is Some && !accounts_have(
                old(self).spec_accounts(),
                sender@,
            )) ==> (*final(self) == *old(self) && (r.1 matches EngineAction::Done { output }
                && output.result@ == spec_error_json(spec_no_account_msg(sender@))
                && output.attributes@.len() == 0 && output.gas_used == 0)),
            (spec_parse_call_kind(kind_raw@) is Some && accounts_have(
                old(self).spec_accounts(),
                sender@,
            ) && !crate::engine::reg_has(old(self).spec_registry().instances(), contract@)) ==> (
            *final(self) == *old(self) && (r.1 matches EngineAction::Done { output }
                && output.result@ == spec_error_json(spec_no_engine_msg(contract@))
                && output.attributes@.len() == 0 && output.gas_used == 0)),
            (spec_parse_call_kind(kind_raw@) is Some && accounts_have(
                old(self).spec_accounts(),
                sender@,
            ) && crate::engine::reg_has(old(self).spec_registry().instances(), contract@) && old(self).spec_registry().instances()[crate::engine::reg_index(
                old(self).spec_registry().instances(),
                contract@,
            )].spec_gas_remaining() < crate::addr::GAS_COST_CANONICALIZE) ==> (*final(self) == *old(self) && (r.1 matches EngineAction::Done { output } && output.result@ == spec_error_json(
                spec_out_of_gas_msg(),
            ))),
            (spec_parse_call_kind(kind_raw@) is Some && accounts_have(
                old(self).spec_accounts(),
                sender@,
            ) && crate::engine::reg_has(old(self).spec_registry().instances(), contract@) && old(self).spec_registry().instances()[crate::engine::reg_index(
                old(self).spec_registry().instances(),
                contract@,
            )].spec_gas_remaining() >= crate::addr::GAS_COST_CANONICALIZE) ==> ({
                let ci = crate::engine::reg_index(
                    old(self).spec_registry().instances(),
                    contract@,
                );
                let oinst = old(self).spec_registry().instances()[ci];
                &&& final(self).spec_registry().instances().len() == old(self).spec_registry().instances().len()
                &&& (forall|j: int|
                    0 <= j < old(self).spec_registry().instances().len() && j != ci ==> final(self).spec_registry().instances()[j] == old(self).spec_registry().instances()[j])
                &&& ({
                    let ninst = final(self).spec_registry().instances()[ci];
                    &&& ninst.spec_address() == oinst.spec_address()
                    &&& ninst.spec_height() == oinst.spec_height()
                    &&& ninst.spec_store() == oinst.spec_store()
                    &&& ninst.spec_querier() == oinst.spec_querier()
                    &&& ninst.spec_gas_remaining() == oinst.spec_gas_remaining()
                        - crate::addr::GAS_COST_CANONICALIZE
                })
                &&& !crate::addr::valid_human_len(sender@.len()) ==> ({
                    &&& r.1 matches EngineAction::Done { output }
                    &&& output.attributes@.len() == 0
                    &&& output.gas_used == 0
                    &&& sender@.len() < crate::addr::MIN_HUMAN_LENGTH ==> output.result@
                        == spec_error_json(spec_addr_too_short_msg())
                    &&& sender@.len() > crate::addr::CANONICAL_LENGTH - 1 ==> output.result@
                        == spec_error_json(spec_addr_too_long_msg())
                })
                &&& crate::addr::valid_human_len(sender@.len()) ==> ({
                    &&& r.1 matches EngineAction::Invoke {
                        contract_index,
                        contract_addr,
                        kind,
                        env,
                        info,
                        payload: pl,
                    }
                    &&& contract_index == ci
                    &&& contract_addr@ == contract@
                    &&& Some(kind) == spec_parse_call_kind(kind_raw@)
                    &&& env.block.height == oinst.spec_height()
                    &&& env.contract_addr@ == oinst.spec_address()
                    &&& info.sender@ == sender@
                    &&& (exists|ai: int|
                        0 <= ai < old(self).spec_accounts().len() && (#[trigger] old(self).spec_accounts()[ai]).sender@ == sender@ && coins_view(info.funds@)
                            == coins_view(old(self).spec_accounts()[ai].funds@))
                    &&& pl@ == payload@
                    &&& r.0.spec_phase() is AwaitRoot
                    &&& r.0.spec_kind() == kind
                    &&& r.0.spec_root_index() == ci
                    &&& r.0.spec_gas_before() == oinst.spec_gas_remaining()
                    &&& r.0.spec_stack().len() == 0
                    &&& r.0.spec_root_attrs().len() == 0
                    &&& r.0.inv(*final(self))
                })
            }),
    {
        let kind = match parse_call_kind(kind_raw) {
            None => {
                let msg = concat_msg("wrong dispatcher call ", kind_raw);
                return Self::refused(CallKind::Query, msg);
            },
            Some(k) => k,
        };
        let acct = match self.find_account(sender) {
            None => {
                let msg = concat_msg("No account found: ", sender);
                return Self::refused(kind, msg);
            },
            Some(a) => a,
        };
        let cidx = match self.registry.find(contract) {
            None => {
                let msg = concat_msg("No engine found: ", contract);
                return Self::refused(kind, msg);
            },
            Some(i) => i,
        };
        proof {
            crate::engine::lemma_reg_index(
                self.spec_registry().instances(),
                cidx as int,
            );
        }
        let remaining = self.registry.instance(cidx).gas_remaining();
        if remaining < crate::addr::GAS_COST_CANONICALIZE {
            let msg = lit_bytes("Ran out of gas");
            return Self::refused(kind, msg);
        }
        self.registry.consume_gas(cidx, crate::addr::GAS_COST_CANONICALIZE);
        let (canon, _canon_gas) = crate::addr::canonicalize(sender);
        match canon {
            Err(e) => {
                let msg = match e {
                    crate::addr::AddrError::TooShort => lit_bytes("address too short"),
                    _ => lit_bytes("address too long"),
                };
                let result = crate::engine::error_json(msg.as_slice());
                return (
                    Self::finished_session(kind),
                    EngineAction::Done {
                        output: CallOutput { result, attributes: Vec::new(), gas_used: 0 },
                    },
                );
            },
            Ok(_) => {},
        }
        let inst = self.registry.instance(cidx);
        let env = inst.env_copy();
        let info = MessageInfo {
            sender: copy_bytes(sender),
            funds: copy_coins(&self.accounts[acct].funds),
        };
        let session = CallSession {
            kind,
            root_index: cidx,
            gas_before: remaining,
            root_result: Vec::new(),
            root_attrs: Vec::new(),
            stack: Vec::new(),
            phase: SessionPhase::AwaitRoot,
        };
        (
            session,
            EngineAction::Invoke {
                contract_index: cidx,
                contract_addr: copy_bytes(contract),
                kind,
                env,
                info,
                payload: copy_bytes(payload),
            },
        )
    }
}


/// After a dispatched call's result attribute lands on the top frame and
/// the walker moves on without finishing that frame, the frame still shows
/// the attribute at the position where it was recorded, after everything
/// recorded before it.
proof fn lemma_sub_frame_preserved(
    oldstack: Seq<MessageFrame>,
    ar: Seq<MessageFrame>,
    fin: Seq<MessageFrame>,
    attr: Attribute,
)
    requires
        oldstack.len() >= 1,
        ar.len() == oldstack.len(),
        ar.last().spec_msgs() == oldstack.last().spec_msgs(),
        ar.last().spec_sender() == oldstack.last().spec_sender(),
        ar.last().spec_results() == oldstack.last().spec_results().push(attr),
        ar.last().spec_idx() == oldstack.last().spec_idx() + 1,
        forall|i: int|
            0 <= i < fin.len() && i < ar.len() ==> {
                &&& (#[trigger] fin[i]).spec_msgs() == ar[i].spec_msgs()
                &&& fin[i].spec_sender() == ar[i].spec_sender()
                &&& fin[i].spec_results().len() >= ar[i].spec_results().len()
                &&& fin[i].spec_results().take(ar[i].spec_results().len() as int)
                    == ar[i].spec_results()
                &&& fin[i].spec_idx() >= ar[i].spec_idx()
            },
    ensures
        fin.len() == oldstack.len() ==> ({
            let nf = fin.last();
            let of = oldstack.last();
            let k = of.spec_results().len() as int;
            &&& nf.spec_msgs() == of.spec_msgs()
            &&& nf.spec_sender() == of.spec_sender()
            &&& nf.spec_results().len() > k
            &&& nf.spec_results().take(k) == of.spec_results()
            &&& nf.spec_results()[k] == attr
            &&& nf.spec_idx() > of.spec_idx()
        }),
{
    if fin.len() == oldstack.len() {
        let li = oldstack.len() - 1;
        let k = oldstack.last().spec_results().len() as int;
        assert(fin[li].spec_results().take(k + 1) == ar[li].spec_results());
        assert(fin[li].spec_results().take(k) =~= ar[li].spec_results().take(k));
        assert(ar[li].spec_results().take(k) =~= oldstack.last().spec_results());
        assert(fin[li].spec_results()[k] == ar[li].spec_results()[k]);
        assert(ar[li].spec_results()[k] == attr);
    }
}

/// Bridges the walker's frame preservation, stated against the state it
/// started from, down to the state before a possible frame push, and applies
/// the recording lemma.
proof fn sub_record_bridge(
    oldstack: Seq<MessageFrame>,
    ar: Seq<MessageFrame>,
    mid: Seq<MessageFrame>,
    fin: Seq<MessageFrame>,
    attr: Attribute,
)
    requires
        oldstack.len() >= 1,
        ar.len() == oldstack.len(),
        ar.last().spec_msgs() == oldstack.last().spec_msgs(),
        ar.last().spec_sender() == oldstack.last().spec_sender(),
        ar.last().spec_results() == oldstack.last().spec_results().push(attr),
        ar.last().spec_idx() == oldstack.last().spec_idx() + 1,
        mid == ar || (mid.len() == ar.len() + 1 && mid.drop_last() == ar),
        forall|i: int|
            0 <= i < fin.len() ==> {
                &&& (#[trigger] fin[i]).spec_msgs() == mid[i].spec_msgs()
                &&& fin[i].spec_sender() == mid[i].spec_sender()
                &&& fin[i].spec_results().len() >= mid[i].spec_results().len()
                &&& fin[i].spec_results().take(mid[i].spec_results().len() as int)
                    == mid[i].spec_results()
                &&& fin[i].spec_idx() >= mid[i].spec_idx()
            },
        fin.len() <= mid.len(),
    ensures
        fin.len() == oldstack.len() ==> ({
            let nf = fin.last();
            let of = oldstack.last();
            let k = of.spec_results().len() as int;
            &&& nf.spec_msgs() == of.spec_msgs()
            &&& nf.spec_sender() == of.spec_sender()
            &&& nf.spec_results().len() > k
            &&& nf.spec_results().take(k) == of.spec_results()
            &&& nf.spec_results()[k] == attr
            &&& nf.spec_idx() > of.spec_idx()
        }),
{
    assert forall|i: int| 0 <= i < fin.len() && i < ar.len() implies {
        &&& (#[trigger] fin[i]).spec_msgs() == ar[i].spec_msgs()
        &&& fin[i].spec_sender() == ar[i].spec_sender()
        &&& fin[i].spec_results().len() >= ar[i].spec_results().len()
        &&& fin[i].spec_results().take(ar[i].spec_results().len() as int) == ar[i].spec_results()
        &&& fin[i].spec_idx() >= ar[i].spec_idx()
    } by {
        if mid != ar {
            assert(mid[i] == mid.drop_last()[i]);
        }
        assert(mid[i] == ar[i]);
    }
    lemma_sub_frame_preserved(oldstack, ar, fin, attr);
}

impl Simulation {
    /// Records a dispatched execute's result attribute on the top frame and
    /// moves past the message.
    fn apply_sub_result(session: &mut CallSession, attr: Attribute)
        requires
            old(session).spec_stack().len() >= 1,
            old(session).frames_wf(),
            old(session).spec_stack().last().spec_idx() < old(session).spec_stack().last().spec_msgs().len(),
        ensures
            final(session).spec_kind() == old(session).spec_kind(),
            final(session).spec_root_index() == old(session).spec_root_index(),
            final(session).spec_gas_before() == old(session).spec_gas_before(),
            final(session).spec_root_result() == old(session).spec_root_result(),
            final(session).spec_root_attrs() == old(session).spec_root_attrs(),
            final(session).spec_phase() == old(session).spec_phase(),
            final(session).frames_wf(),
            final(session).spec_stack().len() == old(session).spec_stack().len(),
            final(session).spec_stack().drop_last() == old(session).spec_stack().drop_last(),
            final(session).spec_stack().last().spec_idx() == old(session).spec_stack().last().spec_idx() + 1,
            final(session).spec_stack().last().spec_msgs() == old(session).spec_stack().last().spec_msgs(),
            final(session).spec_stack().last().spec_sender() == old(session).spec_stack().last().spec_sender(),
            final(session).spec_stack().last().spec_results() == old(session).spec_stack().last().spec_results().push(attr),
    {
        let ghost prestack = session.spec_stack();
        match session.stack.pop() {
            Some(mut frame) => {
                proof {
                    assert(frame == prestack.last());
                }
                if frame.idx < frame.msgs.len() {
                    frame.idx = frame.idx + 1;
                } else {
                    proof {
                        assert(false);
                    }
                }
                frame.results.push(attr);
                session.stack.push(frame);
            },
            None => {
                proof {
                    assert(false);
                }
            },
        }
        proof {
            assert(session.spec_stack().drop_last() =~= prestack.drop_last());
        }
    }

    /// Pushes a fresh dispatch frame for a response's outbound messages.
    fn push_frame(session: &mut CallSession, sender: Vec<u8>, msgs: Vec<CosmosMsg>)
        requires
            old(session).frames_wf(),
        ensures
            final(session).spec_kind() == old(session).spec_kind(),
            final(session).spec_root_index() == old(session).spec_root_index(),
            final(session).spec_gas_before() == old(session).spec_gas_before(),
            final(session).spec_root_result() == old(session).spec_root_result(),
            final(session).spec_root_attrs() == old(session).spec_root_attrs(),
            final(session).spec_phase() == old(session).spec_phase(),
            final(session).frames_wf(),
            final(session).spec_stack().len() == old(session).spec_stack().len() + 1,
            final(session).spec_stack().drop_last() == old(session).spec_stack(),
            final(session).spec_stack().last().spec_idx() == 0,
            final(session).spec_stack().last().spec_msgs() == msgs@,
            final(session).spec_stack().last().spec_sender() == sender@,
            final(session).spec_stack().last().spec_results() == Seq::<Attribute>::empty(),
    {
        session.stack.push(MessageFrame { sender, msgs, idx: 0, results: Vec::new() });
        proof {
            assert(final(session).spec_stack().drop_last() =~= old(session).spec_stack());
        }
    }

    /// Sets the root call's result and its own attributes.
    fn set_root_outcome(session: &mut CallSession, result: Vec<u8>, attrs: Vec<Attribute>)
        ensures
            final(session).spec_kind() == old(session).spec_kind(),
            final(session).spec_root_index() == old(session).spec_root_index(),
            final(session).spec_gas_before() == old(session).spec_gas_before(),
            final(session).spec_phase() == old(session).spec_phase(),
            final(session).spec_stack() == old(session).spec_stack(),
            old(session).frames_wf() ==> final(session).frames_wf(),
            final(session).spec_root_result() == result@,
            final(session).spec_root_attrs() == attrs@,
    {
        session.root_result = result;
        session.root_attrs = attrs;
    }

    /// Takes one backend event and drives the call as far as it can go
    /// without the backend: applies the reported gas, advances the touched
    /// instance's block height exactly once on a successful state-changing
    /// call (never on a query or a failure), releases the iterators opened
    /// during the finished backend call whatever its outcome, records the
    /// dispatched call's result as an attribute keyed by its target, and
    /// either hands the driver the next invoke action or completes the
    /// call.
    pub fn step(&mut self, session: &mut CallSession, event: BackendEvent) -> (r: EngineAction)
        requires
            old(self).wf(),
            old(session).inv(*old(self)),
            !(old(session).spec_phase() is Finished),
            (event is Query) <==> (old(session).spec_phase() is AwaitRoot && old(session).spec_kind() is Query),
        ensures
            final(self).wf(),
            final(self).spec_accounts() == old(self).spec_accounts(),
            final(self).spec_recursion_limit() == old(self).spec_recursion_limit(),
            final(self).spec_registry().instances().len() == old(self).spec_registry().instances().len(),
            final(session).spec_kind() == old(session).spec_kind(),
            final(session).spec_root_index() == old(session).spec_root_index(),
            final(session).spec_gas_before() == old(session).spec_gas_before(),
            final(session).inv(*final(self)),
            (r is Done) <==> (final(session).spec_phase() is Finished),
            r matches EngineAction::Done { output } ==> output.result@ == final(session).spec_root_result(),
            event matches BackendEvent::Query { outcome, .. } ==> final(session).spec_root_result()
                == (match outcome {
                QueryOutcome::Data(b) => b@,
                QueryOutcome::ContractErr(e) => spec_error_json(e@),
                QueryOutcome::VmErr(e) => spec_error_json(e@),
            }),
            old(session).spec_phase() is AwaitRoot ==> (event matches BackendEvent::Call {
                outcome: CallOutcome::Response(_), .. } ==> final(session).spec_root_result()
                == spec_success_json(old(session).spec_kind())),
            old(session).spec_phase() is AwaitRoot ==> (event matches BackendEvent::Call {
                outcome, .. } ==> ((!(outcome is Response)) ==> final(session).spec_root_result()
                == spec_outcome_result(old(session).spec_kind(), outcome))),
            old(session).spec_phase() is AwaitSub ==> final(session).spec_root_result() == old(session).spec_root_result(),
            old(session).spec_phase() is AwaitSub ==> (r is Invoke ==> final(session).spec_root_attrs() == old(session).spec_root_attrs()),
            r matches EngineAction::Invoke { contract_index, contract_addr, kind, info, payload, .. } ==> ({
                &&& kind == CallKind::Execute
                &&& contract_index < final(self).spec_registry().instances().len()
                &&& contract_addr@ == final(self).spec_registry().instances()[
                    contract_index as int
                ].spec_address()
                &&& final(session).spec_phase() == (SessionPhase::AwaitSub {
                    target: contract_index,
                })
                &&& final(session).spec_stack().len() >= 1
                &&& ({
                    let top = final(session).spec_stack().last();
                    let m = top.spec_msgs()[top.spec_idx() as int];
                    &&& top.spec_idx() < top.spec_msgs().len()
                    &&& contract_addr@ == msg_exec_addr(m)
                    &&& payload@ == msg_exec_payload(m)
                    &&& coins_view(info.funds@) == msg_exec_funds(m)
                    &&& info.sender@ == top.spec_sender()
                })
            }),
            ({
                let t: int = match old(session).spec_phase() {
                    SessionPhase::AwaitRoot => old(session).spec_root_index() as int,
                    SessionPhase::AwaitSub { target } => target as int,
                    SessionPhase::Finished => 0,
                };
                &&& (forall|j: int|
                    0 <= j < old(self).spec_registry().instances().len() && j != t ==> final(self).spec_registry().instances()[j] == old(self).spec_registry().instances()[j])
                &&& ({
                    let ni = final(self).spec_registry().instances()[t];
                    let oi = old(self).spec_registry().instances()[t];
                    &&& ni.spec_address() == oi.spec_address()
                    &&& ni.spec_gas_limit() == oi.spec_gas_limit()
                    &&& ni.spec_querier() == oi.spec_querier()
                    &&& ni.spec_gas_remaining() == (if event_gas(event) <= oi.spec_gas_remaining() {
                        event_gas(event)
                    } else {
                        oi.spec_gas_remaining()
                    })
                    &&& ni.spec_store().as_map() == oi.spec_store().as_map()
                    &&& ni.spec_store().entries() == oi.spec_store().entries()
                    &&& ni.spec_store().pending_events() == oi.spec_store().pending_events()
                    &&& ni.spec_store().iters().len() == 0
                    &&& ((event matches BackendEvent::Call {
                        outcome: CallOutcome::Response(_),
                        ..
                    }) ==> ni.spec_height() == crate::engine::spec_bump_height(oi.spec_height()))
                    &&& (!(event matches BackendEvent::Call {
                        outcome: CallOutcome::Response(_),
                        ..
                    }) ==> ni.spec_height() == oi.spec_height())
                })
            }),
            event matches BackendEvent::Query { outcome, .. } ==> (r matches EngineAction::Done {
                output } && output.attributes@.len() == 0 && output.gas_used == old(session).spec_gas_before() - final(self).spec_registry().instances()[old(session).spec_root_index() as int].spec_gas_remaining() && (match outcome {
                QueryOutcome::Data(b) => output.result@ == b@,
                QueryOutcome::ContractErr(e) => output.result@ == spec_error_json(e@),
                QueryOutcome::VmErr(e) => output.result@ == spec_error_json(e@),
            })),
            old(session).spec_phase() is AwaitRoot ==> (event matches BackendEvent::Call {
                outcome, .. } ==> ((!(outcome is Response)) ==> (r matches EngineAction::Done {
                output } && output.attributes@.len() == 0 && output.result@ == spec_outcome_result(
                old(session).spec_kind(),
                outcome,
            ) && output.gas_used == old(session).spec_gas_before() - final(self).spec_registry().instances()[old(session).spec_root_index() as int].spec_gas_remaining()))),
            old(session).spec_phase() is AwaitRoot ==> (event matches BackendEvent::Call {
                outcome: CallOutcome::Response(resp), .. } ==> ({
                &&& (resp.messages@.len() == 0 ==> (r matches EngineAction::Done { output }
                    && output.result@ == spec_success_json(old(session).spec_kind()) && attrs_view(
                    output.attributes@,
                ) == attrs_view(resp.attributes@) && output.gas_used == old(session).spec_gas_before() - final(self).spec_registry().instances()[old(session).spec_root_index() as int].spec_gas_remaining()))
                &&& (r is Invoke ==> ({
                    &&& final(session).spec_root_attrs() == resp.attributes@
                    &&& final(session).spec_stack().len() == 1
                    &&& final(session).spec_stack()[0].spec_msgs() == resp.messages@
                    &&& final(session).spec_stack()[0].spec_sender() == old(self).spec_registry().instances()[old(session).spec_root_index() as int].spec_address()
                }))
                &&& ((resp.messages@.len() == 1 && resp.messages@[0] is Opaque) ==> (
                r matches EngineAction::Done { output } && attrs_view(output.attributes@)
                    == attrs_view(resp.attributes@).push(opaque_attr_view(resp.messages@[0]))))
                &&& ((resp.messages@.len() == 1 && resp.messages@[0] is WasmExecute
                    && !crate::engine::reg_has(
                    old(self).spec_registry().instances(),
                    msg_exec_addr(resp.messages@[0]),
                )) ==> (r matches EngineAction::Done { output } && attrs_view(output.attributes@)
                    == attrs_view(resp.attributes@).push(
                    (
                        msg_exec_addr(resp.messages@[0]),
                        spec_error_json(spec_no_contract_msg(msg_exec_addr(resp.messages@[0]))),
                    ),
                )))
                &&& ((resp.messages@.len() == 1 && resp.messages@[0] is WasmExecute
                    && crate::engine::reg_has(
                    old(self).spec_registry().instances(),
                    msg_exec_addr(resp.messages@[0]),
                ) && 1 < old(self).spec_recursion_limit()) ==> (r matches EngineAction::Invoke {
                    contract_index,
                    info,
                    payload,
                    ..
                } && contract_index == crate::engine::reg_index(
                    old(self).spec_registry().instances(),
                    msg_exec_addr(resp.messages@[0]),
                ) && payload@ == msg_exec_payload(resp.messages@[0]) && coins_view(info.funds@)
                    == msg_exec_funds(resp.messages@[0]) && info.sender@ == old(self).spec_registry().instances()[old(session).spec_root_index() as int].spec_address()))
            })),
            old(session).spec_phase() matches SessionPhase::AwaitSub { target } ==> (
            event matches BackendEvent::Call { outcome, .. } ==> ((final(session).spec_stack().len()
                == old(session).spec_stack().len()) ==> ({
                let nf = final(session).spec_stack().last();
                let of = old(session).spec_stack().last();
                let k = of.spec_results().len() as int;
                &&& nf.spec_msgs() == of.spec_msgs()
                &&& nf.spec_sender() == of.spec_sender()
                &&& nf.spec_results().len() > k
                &&& nf.spec_results().take(k) == of.spec_results()
                &&& crate::types::attr_view(nf.spec_results()[k]) == (
                    old(self).spec_registry().instances()[target as int].spec_address(),
                    spec_outcome_result(CallKind::Execute, outcome),
                )
                &&& nf.spec_idx() > of.spec_idx()
            }))),
            old(session).spec_phase() matches SessionPhase::AwaitSub { target } ==> (
            event matches BackendEvent::Call { outcome, .. } ==> ((old(session).spec_stack().len()
                == 1 && old(session).spec_stack()[0].spec_idx() + 1 == old(session).spec_stack()[0].spec_msgs().len() && (match outcome {
                CallOutcome::Response(resp) => resp.messages@.len() == 0,
                _ => true,
            })) ==> (r matches EngineAction::Done { output } && output.result@ == old(session).spec_root_result() && attrs_view(output.attributes@) == attrs_view(
                old(session).spec_root_attrs() + old(session).spec_stack()[0].spec_results(),
            ).push(
                (
                    old(self).spec_registry().instances()[target as int].spec_address(),
                    spec_outcome_result(CallKind::Execute, outcome),
                ),
            )))),
    {
        let ghost oldinst = self.spec_registry().instances();
        match session.phase {
            SessionPhase::Finished => {
                proof {
                    assert(false);
                }
                EngineAction::Done {
                    output: CallOutput {
                        result: Vec::new(),
                        attributes: Vec::new(),
                        gas_used: 0,
                    },
                }
            },
            SessionPhase::AwaitRoot => {
                let ridx = session.root_index;
                match event {
                    BackendEvent::Query { outcome, gas_remaining } => {
                        self.registry.report_gas(ridx, gas_remaining);
                        self.registry.release_iterators(ridx);
                        session.phase = SessionPhase::Finished;
                        let result = match outcome {
                            QueryOutcome::Data(b) => b,
                            QueryOutcome::ContractErr(e) => crate::engine::error_json(
                                e.as_slice(),
                            ),
                            QueryOutcome::VmErr(e) => crate::engine::error_json(e.as_slice()),
                        };
                        session.root_result = copy_bytes(result.as_slice());
                        let gas_now = self.registry.instance(ridx).gas_remaining();
                        EngineAction::Done {
                            output: CallOutput {
                                result,
                                attributes: Vec::new(),
                                gas_used: session.gas_before - gas_now,
                            },
                        }
                    },
                    BackendEvent::Call { outcome, gas_remaining } => {
                        self.registry.report_gas(ridx, gas_remaining);
                        match outcome {
                            CallOutcome::Response(resp) => {
                                let ghost gattrs = resp.attributes@;
                                let ghost gmsgs = resp.messages@;
                                self.registry.record_success(ridx);
                                let result = success_json(session.kind);
                                Self::set_root_outcome(session, result, resp.attributes);
                                if resp.messages.len() > 0 {
                                    let sender = copy_bytes(
                                        self.registry.instance(ridx).address().as_slice(),
                                    );
                                    Self::push_frame(session, sender, resp.messages);
                                }
                                let ghost mid_sess = *session;
                                let act = self.advance(session);
                                proof {
                                    let news = self.spec_registry().instances();
                                    assert forall|j: int| 0 <= j < oldinst.len() implies (
                                    #[trigger] news[j]).spec_address()
                                        == oldinst[j].spec_address() by {
                                        if j != ridx {
                                            assert(news[j] == oldinst[j]);
                                        }
                                    }
                                    if gmsgs.len() == 0 {
                                        assert(mid_sess.spec_stack().len() == 0);
                                        assert(attrs_view(mid_sess.spec_root_attrs())
                                            == attrs_view(gattrs));
                                    }
                                    if gmsgs.len() == 1 && gmsgs[0] is Opaque {
                                        assert(mid_sess.spec_stack().len() == 1);
                                        assert(mid_sess.spec_stack()[0]
                                            == mid_sess.spec_stack().last());
                                        assert(mid_sess.spec_stack()[0].spec_msgs() == gmsgs);
                                        assert(mid_sess.spec_stack()[0].spec_msgs().last()
                                            == gmsgs[0]);
                                        assert(single_pending_opaque(mid_sess));
                                        assert(mid_sess.spec_root_attrs() + mid_sess.spec_stack()[0].spec_results()
                                            =~= mid_sess.spec_root_attrs());
                                    }
                                    if gmsgs.len() == 1 && gmsgs[0] is WasmExecute {
                                        let x = msg_exec_addr(gmsgs[0]);
                                        assert(mid_sess.spec_stack().len() == 1);
                                        assert(mid_sess.spec_stack()[0]
                                            == mid_sess.spec_stack().last());
                                        assert(mid_sess.spec_stack()[0].spec_msgs() == gmsgs);
                                        assert(mid_sess.spec_stack()[0].spec_msgs().last()
                                            == gmsgs[0]);
                                        assert(single_pending_exec(mid_sess));
                                        assert(pending_addr(mid_sess) == x);
                                        assert(mid_sess.spec_root_attrs() + mid_sess.spec_stack()[0].spec_results()
                                            =~= mid_sess.spec_root_attrs());
                                        if crate::engine::reg_has(oldinst, x) {
                                            let w = crate::engine::reg_index(oldinst, x);
                                            assert(0 <= w < oldinst.len()
                                                && oldinst[w].spec_address() == x);
                                            assert(news[w].spec_address() == x);
                                            assert(crate::engine::reg_has(news, x));
                                            crate::engine::lemma_reg_index(news, w);
                                        } else {
                                            if crate::engine::reg_has(news, x) {
                                                let w2 = choose|w2: int|
                                                    0 <= w2 < news.len() && (
                                                    #[trigger] news[w2]).spec_address() == x;
                                                assert(oldinst[w2].spec_address() == x);
                                                assert(crate::engine::reg_has(oldinst, x));
                                            }
                                        }
                                    }
                                }
                                act
                            },
                            CallOutcome::ContractErr(e) => {
                                self.registry.release_iterators(ridx);
                                session.phase = SessionPhase::Finished;
                                let result = crate::engine::error_json(e.as_slice());
                                session.root_result = copy_bytes(result.as_slice());
                                let gas_now = self.registry.instance(ridx).gas_remaining();
                                EngineAction::Done {
                                    output: CallOutput {
                                        result,
                                        attributes: Vec::new(),
                                        gas_used: session.gas_before - gas_now,
                                    },
                                }
                            },
                            CallOutcome::VmErr(e) => {
                                self.registry.release_iterators(ridx);
                                session.phase = SessionPhase::Finished;
                                let result = crate::engine::error_json(e.as_slice());
                                session.root_result = copy_bytes(result.as_slice());
                                let gas_now = self.registry.instance(ridx).gas_remaining();
                                EngineAction::Done {
                                    output: CallOutput {
                                        result,
                                        attributes: Vec::new(),
                                        gas_used: session.gas_before - gas_now,
                                    },
                                }
                            },
                        }
                    },
                }
            },
            SessionPhase::AwaitSub { target } => {
                match event {
                    BackendEvent::Query { .. } => {
                        proof {
                            assert(false);
                        }
                        EngineAction::Done {
                            output: CallOutput {
                                result: Vec::new(),
                                attributes: Vec::new(),
                                gas_used: 0,
                            },
                        }
                    },
                    BackendEvent::Call { outcome, gas_remaining } => {
                        self.registry.report_gas(target, gas_remaining);
                        let taddr = copy_bytes(
                            self.registry.instance(target).address().as_slice(),
                        );
                        match outcome {
                            CallOutcome::Response(resp) => {
                                self.registry.record_success(target);
                                let attr = Attribute {
                                    key: taddr,
                                    value: success_json(CallKind::Execute),
                                };
                                let ghost gattr = attr;
                                Self::apply_sub_result(session, attr);
                                let ghost after_record = session.spec_stack();
                                if resp.messages.len() > 0 {
                                    let sender = copy_bytes(
                                        self.registry.instance(target).address().as_slice(),
                                    );
                                    Self::push_frame(session, sender, resp.messages);
                                }
                                let ghost mid_sess = *session;
                                let act = self.advance(session);
                                proof {
                                    self.sub_done_glue(*old(session), mid_sess, gattr);
                                    if act is Invoke {
                                        sub_record_bridge(
                                            old(session).spec_stack(),
                                            after_record,
                                            mid_sess.spec_stack(),
                                            session.spec_stack(),
                                            gattr,
                                        );
                                    }
                                }
                                act
                            },
                            CallOutcome::ContractErr(e) => {
                                self.registry.release_iterators(target);
                                let attr = Attribute {
                                    key: taddr,
                                    value: crate::engine::error_json(e.as_slice()),
                                };
                                let ghost gattr = attr;
                                Self::apply_sub_result(session, attr);
                                let ghost mid_sess = *session;
                                let act = self.advance(session);
                                proof {
                                    self.sub_done_glue(*old(session), mid_sess, gattr);
                                    if act is Invoke {
                                        sub_record_bridge(
                                            old(session).spec_stack(),
                                            mid_sess.spec_stack(),
                                            mid_sess.spec_stack(),
                                            session.spec_stack(),
                                            gattr,
                                        );
                                    }
                                }
                                act
                            },
                            CallOutcome::VmErr(e) => {
                                self.registry.release_iterators(target);
                                let attr = Attribute {
                                    key: taddr,
                                    value: crate::engine::error_json(e.as_slice()),
                                };
                                let ghost gattr = attr;
                                Self::apply_sub_result(session, attr);
                                let ghost mid_sess = *session;
                                let act = self.advance(session);
                                proof {
                                    self.sub_done_glue(*old(session), mid_sess, gattr);
                                    if act is Invoke {
                                        sub_record_bridge(
                                            old(session).spec_stack(),
                                            mid_sess.spec_stack(),
                                            mid_sess.spec_stack(),
                                            session.spec_stack(),
                                            gattr,
                                        );
                                    }
                                }
                                act
                            },
                        }
                    },
                }
            },
        }
    }

    /// Relates the attribute list a finishing dispatched call reports to the
    /// state before its result attribute was recorded.
    proof fn sub_done_glue(&self, old_sess: CallSession, mid_sess: CallSession, attr: Attribute)
        requires
            old_sess.spec_stack().len() >= 1,
            mid_sess.spec_stack().len() >= 1,
            mid_sess.spec_root_attrs() == old_sess.spec_root_attrs(),
            mid_sess.spec_stack()[0].spec_results() == if old_sess.spec_stack().len() == 1 {
                old_sess.spec_stack()[0].spec_results().push(attr)
            } else {
                mid_sess.spec_stack()[0].spec_results()
            },
        ensures
            old_sess.spec_stack().len() == 1 ==> attrs_view(
                mid_sess.spec_root_attrs() + mid_sess.spec_stack()[0].spec_results(),
            ) == attrs_view(
                old_sess.spec_root_attrs() + old_sess.spec_stack()[0].spec_results(),
            ).push(crate::types::attr_view(attr)),
    {
        if old_sess.spec_stack().len() == 1 {
            let ra = old_sess.spec_root_attrs();
            let res = old_sess.spec_stack()[0].spec_results();
            assert(ra + res.push(attr) =~= (ra + res).push(attr));
            lemma_attrs_view_push(ra + res, attr);
        }
    }
}


} // verus!
