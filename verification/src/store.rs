//! Relational model of the chat database's integrity rules.
//!
//! The schema's constraints — unique keys, foreign keys, and cascade
//! deletes — are enforced at run time by the SQL engine. This module
//! models the four related tables (conversations, messages, plan
//! status, step status) as typed rows with those rules made explicit:
//! inserts refuse a duplicate key or a dangling reference exactly as
//! the constraints would, and deletes cascade — removing a conversation
//! removes its messages and plans, and removing a plan removes its
//! steps — so that well-formedness is preserved by every operation.

use vstd::prelude::*;

verus! {

/// A conversation row: the parent of messages and plans.
#[derive(Debug)]
pub struct Conversation {
    pub id: String,
    pub title: String,
    pub created_at: i64,
    pub updated_at: i64,
}

/// A message row, appended to one conversation.
#[derive(Debug)]
pub struct Message {
    pub id: String,
    pub conversation_id: String,
    pub role: String,
    pub content: String,
    pub timestamp: i64,
}

/// A plan-status row: at most one per message, owned by a conversation.
#[derive(Debug)]
pub struct PlanStatus {
    pub id: String,
    pub message_id: String,
    pub conversation_id: String,
    pub plan_steps: String,
    pub status: String,
}

/// A step-status row, owned by a plan.
#[derive(Debug)]
pub struct StepStatus {
    pub id: String,
    pub plan_id: String,
    pub step_id: String,
    pub step_number: i64,
    pub description: String,
    pub status: String,
}

/// A setting row: a key-value pair whose key column is declared unique,
/// so settings are upserted by key.
#[derive(Debug)]
pub struct Setting {
    pub id: String,
    pub key: String,
    pub value: Option<String>,
}

impl Clone for Conversation {
    fn clone(&self) -> (r: Self)
        ensures
            r == *self,
    {
        Conversation {
            id: self.id.clone(),
            title: self.title.clone(),
            created_at: self.created_at,
            updated_at: self.updated_at,
        }
    }
}

impl Clone for Message {
    fn clone(&self) -> (r: Self)
        ensures
            r == *self,
    {
        Message {
            id: self.id.clone(),
            conversation_id: self.conversation_id.clone(),
            role: self.role.clone(),
            content: self.content.clone(),
            timestamp: self.timestamp,
        }
    }
}

impl Clone for PlanStatus {
    fn clone(&self) -> (r: Self)
        ensures
            r == *self,
    {
        PlanStatus {
            id: self.id.clone(),
            message_id: self.message_id.clone(),
            conversation_id: self.conversation_id.clone(),
            plan_steps: self.plan_steps.clone(),
            status: self.status.clone(),
        }
    }
}

impl Clone for StepStatus {
    fn clone(&self) -> (r: Self)
        ensures
            r == *self,
    {
        StepStatus {
            id: self.id.clone(),
            plan_id: self.plan_id.clone(),
            step_id: self.step_id.clone(),
            step_number: self.step_number,
            description: self.description.clone(),
            status: self.status.clone(),
        }
    }
}

/// Some row of the sequence has this value under the key function.
pub open spec fn spec_has_key<T>(s: Seq<T>, key: spec_fn(T) -> Seq<char>, id: Seq<char>) -> bool {
    exists|i: int| 0 <= i < s.len() && key(#[trigger] s[i]) == id
}

/// No two rows of the sequence share a value under the key function.
pub open spec fn spec_keys_distinct<T>(s: Seq<T>, key: spec_fn(T) -> Seq<char>) -> bool {
    forall|i: int, j: int| 0 <= i < j < s.len() ==> key(#[trigger] s[i]) != key(#[trigger] s[j])
}

/// Appending a row adds exactly its key value.
proof fn lemma_has_key_push<T>(s: Seq<T>, key: spec_fn(T) -> Seq<char>, x: T, id: Seq<char>)
    ensures
        spec_has_key(s.push(x), key, id) <==> (spec_has_key(s, key, id) || key(x) == id),
{
    if spec_has_key(s.push(x), key, id) {
        let i = choose|i: int| 0 <= i < s.push(x).len() && key(#[trigger] s.push(x)[i]) == id;
        if i < s.len() {
            assert(s.push(x)[i] == s[i]);
            assert(spec_has_key(s, key, id));
        } else {
            assert(s.push(x)[i] == x);
        }
    }
    if spec_has_key(s, key, id) {
        let i = choose|i: int| 0 <= i < s.len() && key(#[trigger] s[i]) == id;
        assert(s.push(x)[i] == s[i]);
        assert(spec_has_key(s.push(x), key, id));
    }
    if key(x) == id {
        assert(s.push(x)[s.len() as int] == x);
        assert(spec_has_key(s.push(x), key, id));
    }
}

/// Every row kept by a filter is a row of the original sequence.
proof fn lemma_filter_members<T>(s: Seq<T>, p: spec_fn(T) -> bool)
    ensures
        forall|k: int| 0 <= k < s.filter(p).len() ==> s.contains(#[trigger] s.filter(p)[k]),
    decreases s.len(),
{
    reveal(Seq::filter);
    if s.len() > 0 {
        let sd = s.drop_last();
        lemma_filter_members(sd, p);
        assert forall|k: int| 0 <= k < s.filter(p).len() implies s.contains(
            #[trigger] s.filter(p)[k],
        ) by {
            if k < sd.filter(p).len() {
                assert(sd.contains(sd.filter(p)[k]));
                let i = choose|i: int| 0 <= i < sd.len() && sd[i] == sd.filter(p)[k];
                assert(s[i] == sd.filter(p)[k]);
            } else {
                assert(s.filter(p)[k] == s.last());
            }
        }
    }
}

/// A sequence whose keys are distinct keeps distinct keys under any
/// filter, and a kept key was present before.
proof fn lemma_filter_keys<T>(s: Seq<T>, p: spec_fn(T) -> bool, key: spec_fn(T) -> Seq<char>)
    requires
        spec_keys_distinct(s, key),
    ensures
        spec_keys_distinct(s.filter(p), key),
        forall|id: Seq<char>|
            #[trigger] spec_has_key(s.filter(p), key, id) ==> spec_has_key(s, key, id),
    decreases s.len(),
{
    reveal(Seq::filter);
    if s.len() > 0 {
        let sd = s.drop_last();
        assert(spec_keys_distinct(sd, key));
        lemma_filter_keys(sd, p, key);
        lemma_filter_members(sd, p);
        if p(s.last()) {
            assert(s.filter(p) == sd.filter(p).push(s.last()));
            assert forall|i: int, j: int| 0 <= i < j < s.filter(p).len() implies key(
                #[trigger] s.filter(p)[i],
            ) != key(#[trigger] s.filter(p)[j]) by {
                if j < sd.filter(p).len() {
                    assert(key(sd.filter(p)[i]) != key(sd.filter(p)[j]));
                } else {
                    assert(s.filter(p)[j] == s.last());
                    assert(sd.contains(sd.filter(p)[i]));
                    let m = choose|m: int| 0 <= m < sd.len() && sd[m] == sd.filter(p)[i];
                    assert(key(s[m]) != key(s[s.len() - 1]));
                }
            }
        }
        assert forall|id: Seq<char>|
            #[trigger] spec_has_key(s.filter(p), key, id) implies spec_has_key(s, key, id) by {
            let k = choose|k: int| 0 <= k < s.filter(p).len() && key(#[trigger] s.filter(p)[k]) == id;
            if p(s.last()) && k == s.filter(p).len() - 1 {
                assert(s[s.len() - 1] == s.last());
            } else {
                assert(spec_has_key(sd.filter(p), key, id));
                let m = choose|m: int| 0 <= m < sd.len() && key(#[trigger] sd[m]) == id;
                assert(key(s[m]) == id);
            }
        }
    }
}

/// A row of the original sequence that the filter keeps is a row of the
/// filtered sequence, so its key is still present.
proof fn lemma_filter_keeps_key<T>(
    s: Seq<T>,
    p: spec_fn(T) -> bool,
    key: spec_fn(T) -> Seq<char>,
    i: int,
)
    requires
        0 <= i < s.len(),
        p(s[i]),
    ensures
        spec_has_key(s.filter(p), key, key(s[i])),
{
    broadcast use vstd::seq_lib::group_filter_ensures;

    assert(s.filter(p).contains(s[i]));
    let k = choose|k: int| 0 <= k < s.filter(p).len() && s.filter(p)[k] == s[i];
    assert(key(s.filter(p)[k]) == key(s[i]));
}

/// The id of a conversation row.
pub open spec fn conv_key() -> spec_fn(Conversation) -> Seq<char> {
    |c: Conversation| c.id@
}

/// The id of a message row.
pub open spec fn msg_key() -> spec_fn(Message) -> Seq<char> {
    |m: Message| m.id@
}

/// The conversation a message belongs to.
pub open spec fn msg_conv_key() -> spec_fn(Message) -> Seq<char> {
    |m: Message| m.conversation_id@
}

/// The id of a plan row.
pub open spec fn plan_key() -> spec_fn(PlanStatus) -> Seq<char> {
    |p: PlanStatus| p.id@
}

/// The message a plan belongs to (unique: one plan per message).
pub open spec fn plan_msg_key() -> spec_fn(PlanStatus) -> Seq<char> {
    |p: PlanStatus| p.message_id@
}

/// The id of a step row.
pub open spec fn step_key() -> spec_fn(StepStatus) -> Seq<char> {
    |s: StepStatus| s.id@
}

/// The step identifier of a step row (unique across steps).
pub open spec fn step_sid_key() -> spec_fn(StepStatus) -> Seq<char> {
    |s: StepStatus| s.step_id@
}

/// The plan a step belongs to.
pub open spec fn step_plan_key() -> spec_fn(StepStatus) -> Seq<char> {
    |s: StepStatus| s.plan_id@
}

/// The id of a setting row.
pub open spec fn setting_key() -> spec_fn(Setting) -> Seq<char> {
    |s: Setting| s.id@
}

/// The key column of a setting row (declared unique).
pub open spec fn setting_unique_key() -> spec_fn(Setting) -> Seq<char> {
    |s: Setting| s.key@
}

/// Why the store refuses an insert, as the schema's constraints would.
#[derive(Clone, Copy, PartialEq, Eq, Structural, Debug)]
pub enum StoreError {
    /// The row reuses a primary key or a column declared unique.
    UniqueViolation,
    /// The row references a parent row that does not exist.
    ForeignKeyViolation,
}

/// Whether some conversation row has this id.
fn conversations_contain(s: &Vec<Conversation>, id: &String) -> (r: bool)
    ensures
        r == spec_has_key(s@, conv_key(), id@),
{
    let n = s.len();
    let mut k: usize = 0;
    while k < n
        invariant
            k <= n,
            n == s@.len(),
            forall|j: int| 0 <= j < k ==> (#[trigger] s@[j]).id@ != id@,
        decreases n - k,
    {
        if s[k].id == *id {
            proof {
                assert(conv_key()(s@[k as int]) == id@);
            }
            return true;
        }
        k = k + 1;
    }
    proof {
        assert forall|i: int| 0 <= i < s@.len() implies conv_key()(#[trigger] s@[i]) != id@ by {
            assert(s@[i].id@ != id@);
        }
    }
    false
}

/// Whether some message row has this id.
fn messages_contain(s: &Vec<Message>, id: &String) -> (r: bool)
    ensures
        r == spec_has_key(s@, msg_key(), id@),
{
    let n = s.len();
    let mut k: usize = 0;
    while k < n
        invariant
            k <= n,
            n == s@.len(),
            forall|j: int| 0 <= j < k ==> (#[trigger] s@[j]).id@ != id@,
        decreases n - k,
    {
        if s[k].id == *id {
            proof {
                assert(msg_key()(s@[k as int]) == id@);
            }
            return true;
        }
        k = k + 1;
    }
    proof {
        assert forall|i: int| 0 <= i < s@.len() implies msg_key()(#[trigger] s@[i]) != id@ by {
            assert(s@[i].id@ != id@);
        }
    }
    false
}

/// Whether some plan row has this id.
fn plans_contain(s: &Vec<PlanStatus>, id: &String) -> (r: bool)
    ensures
        r == spec_has_key(s@, plan_key(), id@),
{
    let n = s.len();
    let mut k: usize = 0;
    while k < n
        invariant
            k <= n,
            n == s@.len(),
            forall|j: int| 0 <= j < k ==> (#[trigger] s@[j]).id@ != id@,
        decreases n - k,
    {
        if s[k].id == *id {
            proof {
                assert(plan_key()(s@[k as int]) == id@);
            }
            return true;
        }
        k = k + 1;
    }
    proof {
        assert forall|i: int| 0 <= i < s@.len() implies plan_key()(#[trigger] s@[i]) != id@ by {
            assert(s@[i].id@ != id@);
        }
    }
    false
}

/// Whether some plan row already belongs to this message.
fn plans_contain_message(s: &Vec<PlanStatus>, message_id: &String) -> (r: bool)
    ensures
        r == spec_has_key(s@, plan_msg_key(), message_id@),
{
    let n = s.len();
    let mut k: usize = 0;
    while k < n
        invariant
            k <= n,
            n == s@.len(),
            forall|j: int| 0 <= j < k ==> (#[trigger] s@[j]).message_id@ != message_id@,
        decreases n - k,
    {
        if s[k].message_id == *message_id {
            proof {
                assert(plan_msg_key()(s@[k as int]) == message_id@);
            }
            return true;
        }
        k = k + 1;
    }
    proof {
        assert forall|i: int|
            0 <= i < s@.len() implies plan_msg_key()(#[trigger] s@[i]) != message_id@ by {
            assert(s@[i].message_id@ != message_id@);
        }
    }
    false
}

/// Whether some step row has this id.
fn steps_contain(s: &Vec<StepStatus>, id: &String) -> (r: bool)
    ensures
        r == spec_has_key(s@, step_key(), id@),
{
    let n = s.len();
    let mut k: usize = 0;
    while k < n
        invariant
            k <= n,
            n == s@.len(),
            forall|j: int| 0 <= j < k ==> (#[trigger] s@[j]).id@ != id@,
        decreases n - k,
    {
        if s[k].id == *id {
            proof {
                assert(step_key()(s@[k as int]) == id@);
            }
            return true;
        }
        k = k + 1;
    }
    proof {
        assert forall|i: int| 0 <= i < s@.len() implies step_key()(#[trigger] s@[i]) != id@ by {
            assert(s@[i].id@ != id@);
        }
    }
    false
}

/// Whether some step row already carries this step identifier.
fn steps_contain_step_id(s: &Vec<StepStatus>, step_id: &String) -> (r: bool)
    ensures
        r == spec_has_key(s@, step_sid_key(), step_id@),
{
    let n = s.len();
    let mut k: usize = 0;
    while k < n
        invariant
            k <= n,
            n == s@.len(),
            forall|j: int| 0 <= j < k ==> (#[trigger] s@[j]).step_id@ != step_id@,
        decreases n - k,
    {
        if s[k].step_id == *step_id {
            proof {
                assert(step_sid_key()(s@[k as int]) == step_id@);
            }
            return true;
        }
        k = k + 1;
    }
    proof {
        assert forall|i: int|
            0 <= i < s@.len() implies step_sid_key()(#[trigger] s@[i]) != step_id@ by {
            assert(s@[i].step_id@ != step_id@);
        }
    }
    false
}

/// Whether some setting row has this id.
fn settings_contain(s: &Vec<Setting>, id: &String) -> (r: bool)
    ensures
        r == spec_has_key(s@, setting_key(), id@),
{
    let n = s.len();
    let mut k: usize = 0;
    while k < n
        invariant
            k <= n,
            n == s@.len(),
            forall|j: int| 0 <= j < k ==> (#[trigger] s@[j]).id@ != id@,
        decreases n - k,
    {
        if s[k].id == *id {
            proof {
                assert(setting_key()(s@[k as int]) == id@);
            }
            return true;
        }
        k = k + 1;
    }
    proof {
        assert forall|i: int| 0 <= i < s@.len() implies setting_key()(#[trigger] s@[i]) != id@ by {
            assert(s@[i].id@ != id@);
        }
    }
    false
}

/// Whether some setting row already carries this key.
fn settings_contain_key(s: &Vec<Setting>, key: &String) -> (r: bool)
    ensures
        r == spec_has_key(s@, setting_unique_key(), key@),
{
    let n = s.len();
    let mut k: usize = 0;
    while k < n
        invariant
            k <= n,
            n == s@.len(),
            forall|j: int| 0 <= j < k ==> (#[trigger] s@[j]).key@ != key@,
        decreases n - k,
    {
        if s[k].key == *key {
            proof {
                assert(setting_unique_key()(s@[k as int]) == key@);
            }
            return true;
        }
        k = k + 1;
    }
    proof {
        assert forall|i: int|
            0 <= i < s@.len() implies setting_unique_key()(#[trigger] s@[i]) != key@ by {
            assert(s@[i].key@ != key@);
        }
    }
    false
}

/// Keep a conversation row: it is not the one being deleted.
pub open spec fn conv_keep(id: Seq<char>) -> spec_fn(Conversation) -> bool {
    |c: Conversation| c.id@ != id
}

/// Keep a message row: it does not belong to the deleted conversation.
pub open spec fn msg_keep(id: Seq<char>) -> spec_fn(Message) -> bool {
    |m: Message| m.conversation_id@ != id
}

/// Keep a plan row: it does not belong to the deleted conversation.
pub open spec fn plan_keep(id: Seq<char>) -> spec_fn(PlanStatus) -> bool {
    |p: PlanStatus| p.conversation_id@ != id
}

/// Some plan row has this id and does not belong to the deleted
/// conversation.
pub open spec fn spec_plan_alive(plans: Seq<PlanStatus>, cid: Seq<char>, pid: Seq<char>) -> bool {
    exists|j: int|
        0 <= j < plans.len() && (#[trigger] plans[j]).id@ == pid && plans[j].conversation_id@ != cid
}

/// Keep a step row: its plan outlives the deleted conversation.
pub open spec fn step_keep(plans: Seq<PlanStatus>, cid: Seq<char>) -> spec_fn(StepStatus) -> bool {
    |s: StepStatus| spec_plan_alive(plans, cid, s.plan_id@)
}

/// Keep a plan row: it is not the one being deleted.
pub open spec fn plan_id_keep(id: Seq<char>) -> spec_fn(PlanStatus) -> bool {
    |p: PlanStatus| p.id@ != id
}

/// Keep a step row: it does not belong to the deleted plan.
pub open spec fn step_plan_keep(id: Seq<char>) -> spec_fn(StepStatus) -> bool {
    |s: StepStatus| s.plan_id@ != id
}

/// Conversation rows other than the deleted one, in order.
fn filter_conversations(rows: &Vec<Conversation>, id: &String) -> (kept: Vec<Conversation>)
    ensures
        kept@ == rows@.filter(conv_keep(id@)),
{
    let ghost p = conv_keep(id@);
    let mut kept: Vec<Conversation> = Vec::new();
    let n = rows.len();
    let mut k: usize = 0;
    proof {
        reveal(Seq::filter);
        assert(rows@.take(0).filter(p) =~= kept@);
    }
    while k < n
        invariant
            k <= n,
            n == rows@.len(),
            p == conv_keep(id@),
            kept@ == rows@.take(k as int).filter(p),
        decreases n - k,
    {
        proof {
            reveal(Seq::filter);
            assert(rows@.take(k + 1).drop_last() =~= rows@.take(k as int));
            assert(rows@.take(k + 1).last() == rows@[k as int]);
            assert(p(rows@[k as int]) == (rows@[k as int].id@ != id@));
        }
        if !(rows[k].id == *id) {
            kept.push(rows[k].clone());
        }
        k = k + 1;
    }
    proof {
        assert(rows@.take(n as int) =~= rows@);
    }
    kept
}

/// Message rows outside the deleted conversation, in order.
fn filter_messages(rows: &Vec<Message>, id: &String) -> (kept: Vec<Message>)
    ensures
        kept@ == rows@.filter(msg_keep(id@)),
{
    let ghost p = msg_keep(id@);
    let mut kept: Vec<Message> = Vec::new();
    let n = rows.len();
    let mut k: usize = 0;
    proof {
        reveal(Seq::filter);
        assert(rows@.take(0).filter(p) =~= kept@);
    }
    while k < n
        invariant
            k <= n,
            n == rows@.len(),
            p == msg_keep(id@),
            kept@ == rows@.take(k as int).filter(p),
        decreases n - k,
    {
        proof {
            reveal(Seq::filter);
            assert(rows@.take(k + 1).drop_last() =~= rows@.take(k as int));
            assert(rows@.take(k + 1).last() == rows@[k as int]);
            assert(p(rows@[k as int]) == (rows@[k as int].conversation_id@ != id@));
        }
        if !(rows[k].conversation_id == *id) {
            kept.push(rows[k].clone());
        }
        k = k + 1;
    }
    proof {
        assert(rows@.take(n as int) =~= rows@);
    }
    kept
}

/// Plan rows outside the deleted conversation, in order.
fn filter_plans_by_conversation(rows: &Vec<PlanStatus>, id: &String) -> (kept: Vec<PlanStatus>)
    ensures
        kept@ == rows@.filter(plan_keep(id@)),
{
    let ghost p = plan_keep(id@);
    let mut kept: Vec<PlanStatus> = Vec::new();
    let n = rows.len();
    let mut k: usize = 0;
    proof {
        reveal(Seq::filter);
        assert(rows@.take(0).filter(p) =~= kept@);
    }
    while k < n
        invariant
            k <= n,
            n == rows@.len(),
            p == plan_keep(id@),
            kept@ == rows@.take(k as int).filter(p),
        decreases n - k,
    {
        proof {
            reveal(Seq::filter);
            assert(rows@.take(k + 1).drop_last() =~= rows@.take(k as int));
            assert(rows@.take(k + 1).last() == rows@[k as int]);
            assert(p(rows@[k as int]) == (rows@[k as int].conversation_id@ != id@));
        }
        if !(rows[k].conversation_id == *id) {
            kept.push(rows[k].clone());
        }
        k = k + 1;
    }
    proof {
        assert(rows@.take(n as int) =~= rows@);
    }
    kept
}

/// Plan rows other than the deleted one, in order.
fn filter_plans_by_id(rows: &Vec<PlanStatus>, id: &String) -> (kept: Vec<PlanStatus>)
    ensures
        kept@ == rows@.filter(plan_id_keep(id@)),
{
    let ghost p = plan_id_keep(id@);
    let mut kept: Vec<PlanStatus> = Vec::new();
    let n = rows.len();
    let mut k: usize = 0;
    proof {
        reveal(Seq::filter);
        assert(rows@.take(0).filter(p) =~= kept@);
    }
    while k < n
        invariant
            k <= n,
            n == rows@.len(),
            p == plan_id_keep(id@),
            kept@ == rows@.take(k as int).filter(p),
        decreases n - k,
    {
        proof {
            reveal(Seq::filter);
            assert(rows@.take(k + 1).drop_last() =~= rows@.take(k as int));
            assert(rows@.take(k + 1).last() == rows@[k as int]);
            assert(p(rows@[k as int]) == (rows@[k as int].id@ != id@));
        }
        if !(rows[k].id == *id) {
            kept.push(rows[k].clone());
        }
        k = k + 1;
    }
    proof {
        assert(rows@.take(n as int) =~= rows@);
    }
    kept
}

/// Step rows outside the deleted plan, in order.
fn filter_steps_by_plan(rows: &Vec<StepStatus>, id: &String) -> (kept: Vec<StepStatus>)
    ensures
        kept@ == rows@.filter(step_plan_keep(id@)),
{
    let ghost p = step_plan_keep(id@);
    let mut kept: Vec<StepStatus> = Vec::new();
    let n = rows.len();
    let mut k: usize = 0;
    proof {
        reveal(Seq::filter);
        assert(rows@.take(0).filter(p) =~= kept@);
    }
    while k < n
        invariant
            k <= n,
            n == rows@.len(),
            p == step_plan_keep(id@),
            kept@ == rows@.take(k as int).filter(p),
        decreases n - k,
    {
        proof {
            reveal(Seq::filter);
            assert(rows@.take(k + 1).drop_last() =~= rows@.take(k as int));
            assert(rows@.take(k + 1).last() == rows@[k as int]);
            assert(p(rows@[k as int]) == (rows@[k as int].plan_id@ != id@));
        }
        if !(rows[k].plan_id == *id) {
            kept.push(rows[k].clone());
        }
        k = k + 1;
    }
    proof {
        assert(rows@.take(n as int) =~= rows@);
    }
    kept
}

/// Whether some plan row has this id and does not belong to the deleted
/// conversation.
fn plan_alive(plans: &Vec<PlanStatus>, cid: &String, pid: &String) -> (r: bool)
    ensures
        r == spec_plan_alive(plans@, cid@, pid@),
{
    let n = plans.len();
    let mut k: usize = 0;
    while k < n
        invariant
            k <= n,
            n == plans@.len(),
            forall|j: int|
                0 <= j < k ==> !((#[trigger] plans@[j]).id@ == pid@ && plans@[j].conversation_id@
                    != cid@),
        decreases n - k,
    {
        if plans[k].id == *pid && !(plans[k].conversation_id == *cid) {
            return true;
        }
        k = k + 1;
    }
    false
}

/// Step rows whose plan outlives the deleted conversation, in order.
fn filter_steps_alive(rows: &Vec<StepStatus>, plans: &Vec<PlanStatus>, cid: &String) -> (kept: Vec<
    StepStatus,
>)
    ensures
        kept@ == rows@.filter(step_keep(plans@, cid@)),
{
    let ghost p = step_keep(plans@, cid@);
    let mut kept: Vec<StepStatus> = Vec::new();
    let n = rows.len();
    let mut k: usize = 0;
    proof {
        reveal(Seq::filter);
        assert(rows@.take(0).filter(p) =~= kept@);
    }
    while k < n
        invariant
            k <= n,
            n == rows@.len(),
            p == step_keep(plans@, cid@),
            kept@ == rows@.take(k as int).filter(p),
        decreases n - k,
    {
        proof {
            reveal(Seq::filter);
            assert(rows@.take(k + 1).drop_last() =~= rows@.take(k as int));
            assert(rows@.take(k + 1).last() == rows@[k as int]);
            assert(p(rows@[k as int]) == spec_plan_alive(plans@, cid@, rows@[k as int].plan_id@));
        }
        if plan_alive(plans, cid, &rows[k].plan_id) {
            kept.push(rows[k].clone());
        }
        k = k + 1;
    }
    proof {
        assert(rows@.take(n as int) =~= rows@);
    }
    kept
}

/// The constrained tables of the chat database: the four related ones
/// and the uniquely keyed settings.
#[derive(Debug)]
pub struct Db {
    pub conversations: Vec<Conversation>,
    pub messages: Vec<Message>,
    pub plans: Vec<PlanStatus>,
    pub steps: Vec<StepStatus>,
    pub settings: Vec<Setting>,
}

impl Db {
    /// The schema's integrity rules: primary keys and declared-unique
    /// columns (a plan's message, a step's step identifier, a setting's
    /// key) are distinct, every message and plan belongs to an existing
    /// conversation, and every step belongs to an existing plan.
    pub open spec fn wf(self) -> bool {
        &&& spec_keys_distinct(self.conversations@, conv_key())
        &&& spec_keys_distinct(self.messages@, msg_key())
        &&& spec_keys_distinct(self.plans@, plan_key())
        &&& spec_keys_distinct(self.plans@, plan_msg_key())
        &&& spec_keys_distinct(self.steps@, step_key())
        &&& spec_keys_distinct(self.steps@, step_sid_key())
        &&& spec_keys_distinct(self.settings@, setting_key())
        &&& spec_keys_distinct(self.settings@, setting_unique_key())
        &&& forall|i: int|
            0 <= i < self.messages@.len() ==> spec_has_key(
                self.conversations@,
                conv_key(),
                (#[trigger] self.messages@[i]).conversation_id@,
            )
        &&& forall|i: int|
            0 <= i < self.plans@.len() ==> spec_has_key(
                self.conversations@,
                conv_key(),
                (#[trigger] self.plans@[i]).conversation_id@,
            )
        &&& forall|i: int|
            0 <= i < self.steps@.len() ==> spec_has_key(
                self.plans@,
                plan_key(),
                (#[trigger] self.steps@[i]).plan_id@,
            )
    }

    /// An empty database: no rows at all.
    pub fn new() -> (db: Db)
        ensures
            db.wf(),
            db.conversations@.len() == 0,
            db.messages@.len() == 0,
            db.plans@.len() == 0,
            db.steps@.len() == 0,
            db.settings@.len() == 0,
    {
        Db {
            conversations: Vec::new(),
            messages: Vec::new(),
            plans: Vec::new(),
            steps: Vec::new(),
            settings: Vec::new(),
        }
    }

    /// Inserts a conversation row. Refused if its id is already taken;
    /// otherwise the row is appended and nothing else changes.
    pub fn insert_conversation(&mut self, c: Conversation) -> (r: Result<(), StoreError>)
        requires
            old(self).wf(),
        ensures
            final(self).wf(),
            spec_has_key(old(self).conversations@, conv_key(), c.id@) ==> r == Err::<
                (),
                StoreError,
            >(StoreError::UniqueViolation) && *final(self) == *old(self),
            !spec_has_key(old(self).conversations@, conv_key(), c.id@) ==> r == Ok::<
                (),
                StoreError,
            >(()) && final(self).conversations@ == old(self).conversations@.push(c) && final(self).messages@ == old(self).messages@ && final(self).plans@ == old(self).plans@ && final(self).steps@ == old(self).steps@ && final(self).settings@ == old(self).settings@,
    {
        if conversations_contain(&self.conversations, &c.id) {
            return Err(StoreError::UniqueViolation);
        }
        let ghost convs0 = self.conversations@;
        let ghost cid = c.id@;
        self.conversations.push(c);
        proof {
            assert forall|i: int, j: int|
                0 <= i < j < self.conversations@.len() implies conv_key()(
                #[trigger] self.conversations@[i],
            ) != conv_key()(#[trigger] self.conversations@[j]) by {
                if j < convs0.len() {
                    assert(self.conversations@[i] == convs0[i]);
                    assert(self.conversations@[j] == convs0[j]);
                } else {
                    assert(self.conversations@[i] == convs0[i]);
                    assert(conv_key()(convs0[i]) != cid);
                }
            }
            assert forall|i: int| 0 <= i < self.messages@.len() implies spec_has_key(
                self.conversations@,
                conv_key(),
                (#[trigger] self.messages@[i]).conversation_id@,
            ) by {
                lemma_has_key_push(
                    convs0,
                    conv_key(),
                    self.conversations@.last(),
                    self.messages@[i].conversation_id@,
                );
                assert(self.conversations@ == convs0.push(self.conversations@.last()));
            }
            assert forall|i: int| 0 <= i < self.plans@.len() implies spec_has_key(
                self.conversations@,
                conv_key(),
                (#[trigger] self.plans@[i]).conversation_id@,
            ) by {
                lemma_has_key_push(
                    convs0,
                    conv_key(),
                    self.conversations@.last(),
                    self.plans@[i].conversation_id@,
                );
                assert(self.conversations@ == convs0.push(self.conversations@.last()));
            }
        }
        Ok(())
    }

    /// Inserts a message row. Refused if its id is already taken, or —
    /// as the foreign key demands — if its conversation does not exist;
    /// otherwise the row is appended and nothing else changes.
    pub fn insert_message(&mut self, m: Message) -> (r: Result<(), StoreError>)
        requires
            old(self).wf(),
        ensures
            final(self).wf(),
            spec_has_key(old(self).messages@, msg_key(), m.id@) ==> r == Err::<(), StoreError>(
                StoreError::UniqueViolation,
            ) && *final(self) == *old(self),
            !spec_has_key(old(self).messages@, msg_key(), m.id@) && !spec_has_key(
                old(self).conversations@,
                conv_key(),
                m.conversation_id@,
            ) ==> r == Err::<(), StoreError>(StoreError::ForeignKeyViolation) && *final(self)
                == *old(self),
            !spec_has_key(old(self).messages@, msg_key(), m.id@) && spec_has_key(
                old(self).conversations@,
                conv_key(),
                m.conversation_id@,
            ) ==> r == Ok::<(), StoreError>(()) && final(self).messages@ == old(self).messages@.push(m) && final(self).conversations@ == old(self).conversations@ && final(self).plans@ == old(self).plans@ && final(self).steps@ == old(self).steps@ && final(self).settings@ == old(self).settings@,
    {
        if messages_contain(&self.messages, &m.id) {
            return Err(StoreError::UniqueViolation);
        }
        if !conversations_contain(&self.conversations, &m.conversation_id) {
            return Err(StoreError::ForeignKeyViolation);
        }
        let ghost msgs0 = self.messages@;
        let ghost mid = m.id@;
        self.messages.push(m);
        proof {
            assert forall|i: int, j: int|
                0 <= i < j < self.messages@.len() implies msg_key()(#[trigger] self.messages@[i])
                != msg_key()(#[trigger] self.messages@[j]) by {
                if j < msgs0.len() {
                    assert(self.messages@[i] == msgs0[i]);
                    assert(self.messages@[j] == msgs0[j]);
                } else {
                    assert(self.messages@[i] == msgs0[i]);
                    assert(msg_key()(msgs0[i]) != mid);
                }
            }
            assert forall|i: int| 0 <= i < self.messages@.len() implies spec_has_key(
                self.conversations@,
                conv_key(),
                (#[trigger] self.messages@[i]).conversation_id@,
            ) by {
                if i < msgs0.len() {
                    assert(self.messages@[i] == msgs0[i]);
                } else {
                    assert(self.messages@[i] == self.messages@.last());
                }
            }
        }
        Ok(())
    }

    /// Inserts a plan row. Refused if its id is taken or its message
    /// already has a plan (one plan per message), or — as the foreign
    /// key demands — if its conversation does not exist; otherwise the
    /// row is appended and nothing else changes.
    pub fn insert_plan_status(&mut self, p: PlanStatus) -> (r: Result<(), StoreError>)
        requires
            old(self).wf(),
        ensures
            final(self).wf(),
            spec_has_key(old(self).plans@, plan_key(), p.id@) || spec_has_key(
                old(self).plans@,
                plan_msg_key(),
                p.message_id@,
            ) ==> r == Err::<(), StoreError>(StoreError::UniqueViolation) && *final(self) == *old(self),
            !spec_has_key(old(self).plans@, plan_key(), p.id@) && !spec_has_key(
                old(self).plans@,
                plan_msg_key(),
                p.message_id@,
            ) && !spec_has_key(old(self).conversations@, conv_key(), p.conversation_id@) ==> r
                == Err::<(), StoreError>(StoreError::ForeignKeyViolation) && *final(self) == *old(self),
            !spec_has_key(old(self).plans@, plan_key(), p.id@) && !spec_has_key(
                old(self).plans@,
                plan_msg_key(),
                p.message_id@,
            ) && spec_has_key(old(self).conversations@, conv_key(), p.conversation_id@) ==> r
                == Ok::<(), StoreError>(()) && final(self).plans@ == old(self).plans@.push(p)
                && final(self).conversations@ == old(self).conversations@ && final(self).messages@
                == old(self).messages@ && final(self).steps@ == old(self).steps@ && final(self).settings@ == old(self).settings@,
    {
        if plans_contain(&self.plans, &p.id) {
            return Err(StoreError::UniqueViolation);
        }
        if plans_contain_message(&self.plans, &p.message_id) {
            return Err(StoreError::UniqueViolation);
        }
        if !conversations_contain(&self.conversations, &p.conversation_id) {
            return Err(StoreError::ForeignKeyViolation);
        }
        let ghost plans0 = self.plans@;
        let ghost pid = p.id@;
        let ghost pmid = p.message_id@;
        self.plans.push(p);
        proof {
            assert forall|i: int, j: int|
                0 <= i < j < self.plans@.len() implies plan_key()(#[trigger] self.plans@[i])
                != plan_key()(#[trigger] self.plans@[j]) by {
                if j < plans0.len() {
                    assert(self.plans@[i] == plans0[i]);
                    assert(self.plans@[j] == plans0[j]);
                } else {
                    assert(self.plans@[i] == plans0[i]);
                    assert(plan_key()(plans0[i]) != pid);
                }
            }
            assert forall|i: int, j: int|
                0 <= i < j < self.plans@.len() implies plan_msg_key()(#[trigger] self.plans@[i])
                != plan_msg_key()(#[trigger] self.plans@[j]) by {
                if j < plans0.len() {
                    assert(self.plans@[i] == plans0[i]);
                    assert(self.plans@[j] == plans0[j]);
                } else {
                    assert(self.plans@[i] == plans0[i]);
                    assert(plan_msg_key()(plans0[i]) != pmid);
                }
            }
            assert forall|i: int| 0 <= i < self.plans@.len() implies spec_has_key(
                self.conversations@,
                conv_key(),
                (#[trigger] self.plans@[i]).conversation_id@,
            ) by {
                if i < plans0.len() {
                    assert(self.plans@[i] == plans0[i]);
                } else {
                    assert(self.plans@[i] == self.plans@.last());
                }
            }
            assert forall|i: int| 0 <= i < self.steps@.len() implies spec_has_key(
                self.plans@,
                plan_key(),
                (#[trigger] self.steps@[i]).plan_id@,
            ) by {
                lemma_has_key_push(plans0, plan_key(), self.plans@.last(), self.steps@[i].plan_id@);
                assert(self.plans@ == plans0.push(self.plans@.last()));
            }
        }
        Ok(())
    }

    /// Inserts a step row. Refused if its id or its step identifier is
    /// already taken, or — as the foreign key demands — if its plan
    /// does not exist; otherwise the row is appended and nothing else
    /// changes.
    pub fn insert_step_status(&mut self, s: StepStatus) -> (r: Result<(), StoreError>)
        requires
            old(self).wf(),
        ensures
            final(self).wf(),
            spec_has_key(old(self).steps@, step_key(), s.id@) || spec_has_key(
                old(self).steps@,
                step_sid_key(),
                s.step_id@,
            ) ==> r == Err::<(), StoreError>(StoreError::UniqueViolation) && *final(self) == *old(self),
            !spec_has_key(old(self).steps@, step_key(), s.id@) && !spec_has_key(
                old(self).steps@,
                step_sid_key(),
                s.step_id@,
            ) && !spec_has_key(old(self).plans@, plan_key(), s.plan_id@) ==> r == Err::<
                (),
                StoreError,
            >(StoreError::ForeignKeyViolation) && *final(self) == *old(self),
            !spec_has_key(old(self).steps@, step_key(), s.id@) && !spec_has_key(
                old(self).steps@,
                step_sid_key(),
                s.step_id@,
            ) && spec_has_key(old(self).plans@, plan_key(), s.plan_id@) ==> r == Ok::<
                (),
                StoreError,
            >(()) && final(self).steps@ == old(self).steps@.push(s) && final(self).conversations@
                == old(self).conversations@ && final(self).messages@ == old(self).messages@
                && final(self).plans@ == old(self).plans@ && final(self).settings@ == old(self).settings@,
    {
        if steps_contain(&self.steps, &s.id) {
            return Err(StoreError::UniqueViolation);
        }
        if steps_contain_step_id(&self.steps, &s.step_id) {
            return Err(StoreError::UniqueViolation);
        }
        if !plans_contain(&self.plans, &s.plan_id) {
            return Err(StoreError::ForeignKeyViolation);
        }
        let ghost steps0 = self.steps@;
        let ghost sid = s.id@;
        let ghost ssid = s.step_id@;
        self.steps.push(s);
        proof {
            assert forall|i: int, j: int|
                0 <= i < j < self.steps@.len() implies step_key()(#[trigger] self.steps@[i])
                != step_key()(#[trigger] self.steps@[j]) by {
                if j < steps0.len() {
                    assert(self.steps@[i] == steps0[i]);
                    assert(self.steps@[j] == steps0[j]);
                } else {
                    assert(self.steps@[i] == steps0[i]);
                    assert(step_key()(steps0[i]) != sid);
                }
            }
            assert forall|i: int, j: int|
                0 <= i < j < self.steps@.len() implies step_sid_key()(#[trigger] self.steps@[i])
                != step_sid_key()(#[trigger] self.steps@[j]) by {
                if j < steps0.len() {
                    assert(self.steps@[i] == steps0[i]);
                    assert(self.steps@[j] == steps0[j]);
                } else {
                    assert(self.steps@[i] == steps0[i]);
                    assert(step_sid_key()(steps0[i]) != ssid);
                }
            }
            assert forall|i: int| 0 <= i < self.steps@.len() implies spec_has_key(
                self.plans@,
                plan_key(),
                (#[trigger] self.steps@[i]).plan_id@,
            ) by {
                if i < steps0.len() {
                    assert(self.steps@[i] == steps0[i]);
                } else {
                    assert(self.steps@[i] == self.steps@.last());
                }
            }
        }
        Ok(())
    }

    /// Inserts a setting row. Refused if its id or its key is already
    /// taken — the key column is declared unique, one row per key;
    /// otherwise the row is appended and nothing else changes.
    pub fn insert_setting(&mut self, s: Setting) -> (r: Result<(), StoreError>)
        requires
            old(self).wf(),
        ensures
            final(self).wf(),
            spec_has_key(old(self).settings@, setting_key(), s.id@) || spec_has_key(
                old(self).settings@,
                setting_unique_key(),
                s.key@,
            ) ==> r == Err::<(), StoreError>(StoreError::UniqueViolation) && *final(self) == *old(self),
            !spec_has_key(old(self).settings@, setting_key(), s.id@) && !spec_has_key(
                old(self).settings@,
                setting_unique_key(),
                s.key@,
            ) ==> r == Ok::<(), StoreError>(()) && final(self).settings@ == old(
                self,
            ).settings@.push(s) && final(self).conversations@ == old(self).conversations@ && final(self).messages@ == old(self).messages@ && final(self).plans@ == old(self).plans@ && final(self).steps@ == old(self).steps@,
    {
        if settings_contain(&self.settings, &s.id) {
            return Err(StoreError::UniqueViolation);
        }
        if settings_contain_key(&self.settings, &s.key) {
            return Err(StoreError::UniqueViolation);
        }
        let ghost settings0 = self.settings@;
        let ghost sid = s.id@;
        let ghost skey = s.key@;
        self.settings.push(s);
        proof {
            assert forall|i: int, j: int|
                0 <= i < j < self.settings@.len() implies setting_key()(
                #[trigger] self.settings@[i],
            ) != setting_key()(#[trigger] self.settings@[j]) by {
                if j < settings0.len() {
                    assert(self.settings@[i] == settings0[i]);
                    assert(self.settings@[j] == settings0[j]);
                } else {
                    assert(self.settings@[i] == settings0[i]);
                    assert(setting_key()(settings0[i]) != sid);
                }
            }
            assert forall|i: int, j: int|
                0 <= i < j < self.settings@.len() implies setting_unique_key()(
                #[trigger] self.settings@[i],
            ) != setting_unique_key()(#[trigger] self.settings@[j]) by {
                if j < settings0.len() {
                    assert(self.settings@[i] == settings0[i]);
                    assert(self.settings@[j] == settings0[j]);
                } else {
                    assert(self.settings@[i] == settings0[i]);
                    assert(setting_unique_key()(settings0[i]) != skey);
                }
            }
        }
        Ok(())
    }

    /// Deletes a conversation row and cascades: every message and every
    /// plan referencing the conversation is removed with it, and every
    /// step of a removed plan is removed in turn. Rows referencing other
    /// conversations are kept unchanged, in order.
    pub fn delete_conversation(&mut self, id: &String)
        requires
            old(self).wf(),
        ensures
            final(self).wf(),
            final(self).conversations@ == old(self).conversations@.filter(conv_keep(id@)),
            final(self).messages@ == old(self).messages@.filter(msg_keep(id@)),
            final(self).plans@ == old(self).plans@.filter(plan_keep(id@)),
            final(self).steps@ == old(self).steps@.filter(step_keep(old(self).plans@, id@)),
            final(self).settings@ == old(self).settings@,
            !spec_has_key(final(self).conversations@, conv_key(), id@),
            forall|i: int|
                0 <= i < final(self).messages@.len() ==> (#[trigger] final(self).messages@[i]).conversation_id@ != id@,
            forall|i: int|
                0 <= i < final(self).plans@.len() ==> (#[trigger] final(self).plans@[i]).conversation_id@ != id@,
    {
        let kept_steps = filter_steps_alive(&self.steps, &self.plans, id);
        let kept_messages = filter_messages(&self.messages, id);
        let kept_plans = filter_plans_by_conversation(&self.plans, id);
        let kept_conversations = filter_conversations(&self.conversations, id);
        self.steps = kept_steps;
        self.messages = kept_messages;
        self.plans = kept_plans;
        self.conversations = kept_conversations;
        proof {
            broadcast use vstd::seq_lib::group_filter_ensures;

            let convs0 = old(self).conversations@;
            let msgs0 = old(self).messages@;
            let plans0 = old(self).plans@;
            let steps0 = old(self).steps@;
            let cp = conv_keep(id@);
            let mp = msg_keep(id@);
            let pp = plan_keep(id@);
            let sp = step_keep(plans0, id@);
            lemma_filter_keys(convs0, cp, conv_key());
            lemma_filter_keys(msgs0, mp, msg_key());
            lemma_filter_keys(plans0, pp, plan_key());
            lemma_filter_keys(plans0, pp, plan_msg_key());
            lemma_filter_keys(steps0, sp, step_key());
            lemma_filter_keys(steps0, sp, step_sid_key());
            lemma_filter_members(msgs0, mp);
            lemma_filter_members(plans0, pp);
            lemma_filter_members(steps0, sp);
            assert forall|i: int| 0 <= i < self.messages@.len() implies spec_has_key(
                self.conversations@,
                conv_key(),
                (#[trigger] self.messages@[i]).conversation_id@,
            ) by {
                let m = self.messages@[i];
                assert(msgs0.contains(m));
                let mi = choose|mi: int| 0 <= mi < msgs0.len() && msgs0[mi] == m;
                assert(spec_has_key(convs0, conv_key(), m.conversation_id@));
                let ci = choose|ci: int|
                    0 <= ci < convs0.len() && conv_key()(#[trigger] convs0[ci])
                        == m.conversation_id@;
                assert(mp(m));
                assert(cp(convs0[ci]));
                lemma_filter_keeps_key(convs0, cp, conv_key(), ci);
            }
            assert forall|i: int| 0 <= i < self.plans@.len() implies spec_has_key(
                self.conversations@,
                conv_key(),
                (#[trigger] self.plans@[i]).conversation_id@,
            ) by {
                let p = self.plans@[i];
                assert(plans0.contains(p));
                let pi = choose|pi: int| 0 <= pi < plans0.len() && plans0[pi] == p;
                assert(spec_has_key(convs0, conv_key(), p.conversation_id@));
                let ci = choose|ci: int|
                    0 <= ci < convs0.len() && conv_key()(#[trigger] convs0[ci])
                        == p.conversation_id@;
                assert(pp(p));
                assert(cp(convs0[ci]));
                lemma_filter_keeps_key(convs0, cp, conv_key(), ci);
            }
            assert forall|i: int| 0 <= i < self.steps@.len() implies spec_has_key(
                self.plans@,
                plan_key(),
                (#[trigger] self.steps@[i]).plan_id@,
            ) by {
                let s = self.steps@[i];
                assert(sp(s));
                assert(spec_plan_alive(plans0, id@, s.plan_id@));
                let j = choose|j: int|
                    0 <= j < plans0.len() && (#[trigger] plans0[j]).id@ == s.plan_id@
                        && plans0[j].conversation_id@ != id@;
                assert(pp(plans0[j]));
                lemma_filter_keeps_key(plans0, pp, plan_key(), j);
            }
            assert forall|i: int|
                0 <= i < self.conversations@.len() implies conv_key()(
                #[trigger] self.conversations@[i],
            ) != id@ by {
                assert(cp(self.conversations@[i]));
            }
        }
    }

    /// Deletes a plan row and cascades: every step referencing the plan
    /// is removed with it. Steps of other plans, and all other tables,
    /// are kept unchanged, in order.
    pub fn delete_plan_status(&mut self, id: &String)
        requires
            old(self).wf(),
        ensures
            final(self).wf(),
            final(self).plans@ == old(self).plans@.filter(plan_id_keep(id@)),
            final(self).steps@ == old(self).steps@.filter(step_plan_keep(id@)),
            final(self).conversations@ == old(self).conversations@,
            final(self).messages@ == old(self).messages@,
            final(self).settings@ == old(self).settings@,
            !spec_has_key(final(self).plans@, plan_key(), id@),
            forall|i: int|
                0 <= i < final(self).steps@.len() ==> (#[trigger] final(self).steps@[i]).plan_id@ != id@,
    {
        let kept_steps = filter_steps_by_plan(&self.steps, id);
        let kept_plans = filter_plans_by_id(&self.plans, id);
        self.steps = kept_steps;
        self.plans = kept_plans;
        proof {
            broadcast use vstd::seq_lib::group_filter_ensures;

            let plans0 = old(self).plans@;
            let steps0 = old(self).steps@;
            let pp = plan_id_keep(id@);
            let sp = step_plan_keep(id@);
            lemma_filter_keys(plans0, pp, plan_key());
            lemma_filter_keys(plans0, pp, plan_msg_key());
            lemma_filter_keys(steps0, sp, step_key());
            lemma_filter_keys(steps0, sp, step_sid_key());
            lemma_filter_members(plans0, pp);
            lemma_filter_members(steps0, sp);
            assert forall|i: int| 0 <= i < self.plans@.len() implies spec_has_key(
                self.conversations@,
                conv_key(),
                (#[trigger] self.plans@[i]).conversation_id@,
            ) by {
                let p = self.plans@[i];
                assert(plans0.contains(p));
            }
            assert forall|i: int| 0 <= i < self.steps@.len() implies spec_has_key(
                self.plans@,
                plan_key(),
                (#[trigger] self.steps@[i]).plan_id@,
            ) by {
                let s = self.steps@[i];
                assert(steps0.contains(s));
                assert(sp(s));
                assert(spec_has_key(plans0, plan_key(), s.plan_id@));
                let j = choose|j: int|
                    0 <= j < plans0.len() && plan_key()(#[trigger] plans0[j]) == s.plan_id@;
                assert(pp(plans0[j]));
                lemma_filter_keeps_key(plans0, pp, plan_key(), j);
            }
            assert forall|i: int|
                0 <= i < self.plans@.len() implies plan_key()(#[trigger] self.plans@[i])
                != id@ by {
                assert(pp(self.plans@[i]));
            }
            assert forall|i: int|
                0 <= i < self.steps@.len() implies step_plan_key()(#[trigger] self.steps@[i])
                != id@ by {
                assert(sp(self.steps@[i]));
            }
        }
    }
}

} // verus!
