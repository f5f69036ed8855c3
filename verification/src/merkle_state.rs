//! The digest-indexed message log shared by the merkleized core objects:
//! every recorded message has a content digest and parent digests, and the
//! digests that no later message names as a parent are the heads.

use vstd::prelude::*;
use crate::json::{JsonValue, Json, json_get, json_get_str, clone_json, lookup, digest_of, compute_digest};
use crate::shared::{SharedMessage, MessageModel};
use crate::shared_object::message_models;
use crate::storage::CoreStorage;
use crate::state_memento::lemma_strictly_sorted_unique;
use crate::text::{
    copy_str, str_equal, contains_str, index_of_str, views_of, has_view, strictly_sorted, first_index_of,
    insert_sorted_unique, remove_sorted,
};

verus! {

broadcast use vstd::string::group_string_axioms;

/// Mathematical model of a `MerkelizedState`.
pub struct StateModel {
    /// The recorded messages, in order.
    pub messages: Seq<MessageModel>,
    /// The known digests, in order (those of recorded messages and those
    /// added directly).
    pub digests: Seq<Seq<char>>,
    /// The parent digests of each recorded message, by its digest.
    pub parents: Seq<(Seq<char>, Seq<Seq<char>>)>,
    /// The digests that no recorded message names as a parent.
    pub heads: Set<Seq<char>>,
}

/// The state after recording message `m` with digest `d` and parents `ps`.
pub open spec fn recorded(s: StateModel, m: MessageModel, d: Seq<char>, ps: Seq<Seq<char>>) -> StateModel {
    StateModel {
        messages: s.messages.push(m),
        digests: s.digests.push(d),
        parents: s.parents.push((d, ps)),
        heads: s.heads.difference(ps.to_set()).insert(d),
    }
}

/// The heads are exactly the digests of recorded messages that no later
/// recorded message names as a parent.
pub open spec fn heads_law(s: StateModel) -> bool {
    forall|t: Seq<char>| #[trigger] s.heads.contains(t) <==> exists|i: int|
        0 <= i < s.parents.len() && #[trigger] s.parents[i].0 == t
            && forall|j: int| i < j < s.parents.len() ==> !(#[trigger] s.parents[j].1.contains(t))
}

/// Recording a message keeps `heads_law`.
pub proof fn lemma_recorded_heads_law(s: StateModel, m: MessageModel, d: Seq<char>, ps: Seq<Seq<char>>)
    requires
        heads_law(s),
    ensures
        heads_law(recorded(s, m, d, ps)),
{
    let r = recorded(s, m, d, ps);
    let n = s.parents.len() as int;
    assert forall|t: Seq<char>| #[trigger] r.heads.contains(t) <==> exists|i: int|
        0 <= i < r.parents.len() && #[trigger] r.parents[i].0 == t
            && forall|j: int| i < j < r.parents.len() ==> !(#[trigger] r.parents[j].1.contains(t)) by {
        if t == d {
            assert(r.parents[n].0 == t);
        } else {
            if r.heads.contains(t) {
                assert(s.heads.contains(t) && !ps.contains(t));
                let i = choose|i: int| 0 <= i < s.parents.len() && #[trigger] s.parents[i].0 == t
                    && forall|j: int| i < j < s.parents.len() ==> !(#[trigger] s.parents[j].1.contains(t));
                assert(r.parents[i].0 == t);
                assert forall|j: int| i < j < r.parents.len() implies !(#[trigger] r.parents[j].1.contains(t)) by {
                    if j < n {
                        assert(r.parents[j] == s.parents[j]);
                    }
                }
            }
            if exists|i: int| 0 <= i < r.parents.len() && #[trigger] r.parents[i].0 == t
                && forall|j: int| i < j < r.parents.len() ==> !(#[trigger] r.parents[j].1.contains(t)) {
                let i = choose|i: int| 0 <= i < r.parents.len() && #[trigger] r.parents[i].0 == t
                    && forall|j: int| i < j < r.parents.len() ==> !(#[trigger] r.parents[j].1.contains(t));
                assert(i < n);
                assert(s.parents[i].0 == t);
                assert forall|j: int| i < j < s.parents.len() implies !(#[trigger] s.parents[j].1.contains(t)) by {
                    assert(r.parents[j] == s.parents[j]);
                }
                assert(!r.parents[n].1.contains(t));
                assert(s.heads.contains(t));
            }
        }
    }
    assert(heads_law(r));
}

/// The messages after `digest`: none for an empty log, all of them for the
/// empty digest, those after the message at the digest's position for a
/// known digest, and none otherwise (nor when that position is past the
/// last message).
pub open spec fn messages_since(s: StateModel, digest: Seq<char>) -> Seq<MessageModel> {
    if s.messages.len() == 0 {
        Seq::empty()
    } else if digest.len() == 0 {
        s.messages
    } else if s.digests.contains(digest) && first_index_of(s.digests, digest) + 1 <= s.messages.len() {
        s.messages.subrange(first_index_of(s.digests, digest) + 1, s.messages.len() as int)
    } else {
        Seq::empty()
    }
}

/// One step of `normalize_parents`: `x` joins `r` when it is a non-empty
/// text other than `genesis` that `r` does not hold yet.
pub open spec fn normalize_step(r: Seq<Seq<char>>, x: Json) -> Seq<Seq<char>> {
    match x {
        Json::Str(p) => if p.len() > 0 && p != "genesis"@ && !r.contains(p) {
            r.push(p)
        } else {
            r
        },
        _ => r,
    }
}

/// The parent digests named by a JSON array: its text items, skipping the
/// empty text, `genesis` and repeats, in order.
pub open spec fn normalize_parents(items: Seq<Json>) -> Seq<Seq<char>>
    decreases items.len(),
{
    if items.len() == 0 {
        Seq::empty()
    } else {
        normalize_step(normalize_parents(items.drop_last()), items.last())
    }
}

pub proof fn lemma_normalize_prefix(items: Seq<Json>, i: int)
    requires
        0 <= i < items.len(),
    ensures
        normalize_parents(items.take(i + 1)) == normalize_step(normalize_parents(items.take(i)), items[i]),
{
    assert(items.take(i + 1).drop_last() =~= items.take(i));
    assert(items.take(i + 1).last() == items[i]);
}

/// Whether a prefix one longer holds `t`.
pub proof fn lemma_take_push_contains(s: Seq<Seq<char>>, i: int, t: Seq<char>)
    requires
        0 <= i < s.len(),
    ensures
        s.take(i + 1).contains(t) <==> (s.take(i).contains(t) || t == s[i]),
{
    if s.take(i + 1).contains(t) {
        let k = choose|k: int| 0 <= k < s.take(i + 1).len() && #[trigger] s.take(i + 1)[k] == t;
        if k < i {
            assert(s.take(i)[k] == t);
        }
    }
    if s.take(i).contains(t) {
        let k = choose|k: int| 0 <= k < s.take(i).len() && #[trigger] s.take(i)[k] == t;
        assert(s.take(i + 1)[k] == t);
    }
    if t == s[i] {
        assert(s.take(i + 1)[i] == t);
    }
}

/// The parent digests named by an optional JSON value (an array).
pub open spec fn parents_of_value(v: Option<Json>) -> Seq<Seq<char>> {
    match v {
        Some(Json::Arr(items)) => normalize_parents(items),
        _ => Seq::empty(),
    }
}

/// The parent digests of a message payload: its `parents` array when it has
/// that key, else its `previous_digest` text, else none.
pub open spec fn extract_parents(data: Json) -> Seq<Seq<char>> {
    match data {
        Json::Obj(entries) => if lookup(entries, "parents"@) is Some {
            parents_of_value(lookup(entries, "parents"@))
        } else {
            match json_get_str(data, "previous_digest"@) {
                Some(prev) => normalize_parents(seq![Json::Str(prev)]),
                None => Seq::empty(),
            }
        },
        _ => Seq::empty(),
    }
}

/// The parent digests named by `value`, an optional JSON array.
pub fn normalize_parent_digests_from_value(value: Option<&JsonValue>) -> (r: Vec<String>)
    ensures
        views_of(r@) == parents_of_value(match value {
            Some(v) => Some(v.model()),
            None => None,
        }),
{
    proof {
        reveal_strlit("");
    }
    let mut normalized: Vec<String> = Vec::new();
    match value {
        Some(JsonValue::Array(items)) => {
            let mut i: usize = 0;
            while i < items.len()
                invariant
                    i <= items@.len(),
                    views_of(normalized@) == normalize_parents(crate::json::models_of(items@).take(i as int)),
                decreases items@.len() - i,
            {
                proof {
                    reveal_strlit("");
                    crate::json::lemma_models_of(items@);
                    let ms = crate::json::models_of(items@);
                    lemma_normalize_prefix(ms, i as int);
                    assert(ms[i as int] == items@[i as int].model());
                }
                let ghost r = views_of(normalized@);
                let ghost ms = crate::json::models_of(items@);
                match &items[i] {
                    JsonValue::Str(p) => {
                        assert(ms[i as int] == Json::Str(p@));
                        if !str_equal(p.as_str(), "") && !str_equal(p.as_str(), "genesis") && !contains_str(&normalized, p.as_str()) {
                            normalized.push(copy_str(p.as_str()));
                            proof {
                                reveal_strlit("");
                                if p@.len() == 0 {
                                    assert(p@ =~= ""@);
                                }
                                assert(views_of(normalized@) =~= r.push(p@));
                                assert(normalize_step(r, ms[i as int]) == r.push(p@));
                            }
                        } else {
                            assert(normalize_step(r, ms[i as int]) == r);
                        }
                    },
                    _ => {
                        assert(!(ms[i as int] is Str));
                        assert(normalize_step(r, ms[i as int]) == r);
                    },
                }
                i += 1;
            }
            proof {
                crate::json::lemma_models_of(items@);
                assert(crate::json::models_of(items@).take(i as int) =~= crate::json::models_of(items@));
            }
        },
        _ => {
            proof {
                assert(views_of(normalized@) =~= Seq::<Seq<char>>::empty());
            }
        },
    }
    normalized
}

/// The parent digests of a message payload.
pub fn extract_parent_digests(data: &JsonValue) -> (r: Vec<String>)
    ensures
        views_of(r@) == extract_parents(data.model()),
{
    match data {
        JsonValue::Object(_) => {
            if data.contains_key("parents") {
                normalize_parent_digests_from_value(data.get("parents"))
            } else {
                match data.get_str("previous_digest") {
                    Some(prev) => {
                        let mut one: Vec<JsonValue> = Vec::new();
                        one.push(JsonValue::Str(copy_str(prev.as_str())));
                        let arr = JsonValue::Array(one);
                        proof {
                            crate::json::lemma_models_of(one@);
                            assert(crate::json::models_of(one@) =~= seq![Json::Str(prev@)]);
                        }
                        normalize_parent_digests_from_value(Some(&arr))
                    },
                    None => {
                        let v: Vec<String> = Vec::new();
                        proof {
                            assert(views_of(v@) =~= Seq::<Seq<char>>::empty());
                        }
                        v
                    },
                }
            }
        },
        _ => {
            let v: Vec<String> = Vec::new();
            proof {
                assert(views_of(v@) =~= Seq::<Seq<char>>::empty());
            }
            v
        },
    }
}

/// The heads in ascending order: the strictly sorted sequence holding
/// exactly the elements of `heads`.
pub open spec fn sorted_heads(heads: Set<Seq<char>>) -> Seq<Seq<char>> {
    choose|q: Seq<Seq<char>>| strictly_sorted(q) && forall|t: Seq<char>| #[trigger] q.contains(t) <==> heads.contains(t)
}

pub proof fn lemma_sorted_heads(heads: Set<Seq<char>>, q: Seq<Seq<char>>)
    requires
        strictly_sorted(q),
        forall|t: Seq<char>| #[trigger] q.contains(t) <==> heads.contains(t),
    ensures
        sorted_heads(heads) == q,
{
    let c = sorted_heads(heads);
    lemma_strictly_sorted_unique(c, q);
}

/// The log after message `m` arrives: it is recorded, under the digest of
/// its payload and with the parents that its payload names, unless that
/// digest is already known.
pub open spec fn log_after(s: StateModel, m: MessageModel) -> StateModel {
    let d = digest_of(m.data);
    if s.digests.contains(d) {
        s
    } else {
        recorded(s, m, d, extract_parents(m.data))
    }
}

/// The store after message `m` arrives at a log in state `s`: the payload
/// is stored under its digest when the message is recorded.
pub open spec fn store_after_log(store: Map<Seq<char>, Json>, s: StateModel, m: MessageModel) -> Map<Seq<char>, Json> {
    let d = digest_of(m.data);
    if s.digests.contains(d) {
        store
    } else {
        store.insert(d, m.data)
    }
}

/// The last known digest, or the empty text.
pub open spec fn latest_of(s: StateModel) -> Seq<char> {
    if s.digests.len() == 0 {
        Seq::empty()
    } else {
        s.digests.last()
    }
}

/// Records `message` unless the digest of its payload is already known;
/// returns that digest and whether the message was recorded.
pub fn record_if_new(state: &mut MerkelizedState, storage: &mut CoreStorage, message: SharedMessage) -> (r: (String, bool))
    requires
        old(state).wf(),
        old(storage).wf(),
    ensures
        final(state).wf(),
        final(storage).wf(),
        r.0@ == digest_of(message@.data),
        r.1 == !old(state)@.digests.contains(r.0@),
        final(state)@ == log_after(old(state)@, message@),
        final(storage).spec_mode() == old(storage).spec_mode(),
        final(storage).spec_store() == store_after_log(old(storage).spec_store(), old(state)@, message@),
{
    let digest = compute_digest(&message.data);
    if state.contains_digest(digest.as_str()) {
        return (digest, false);
    }
    let parents = extract_parent_digests(&message.data);
    state.record_message(storage, message, copy_str(digest.as_str()), parents);
    (digest, true)
}

/// The parent list recorded for each message, as models.
pub open spec fn parent_models(p: Seq<(String, Vec<String>)>) -> Seq<(Seq<char>, Seq<Seq<char>>)> {
    Seq::new(p.len(), |i: int| (p[i].0@, views_of(p[i].1@)))
}

/// A digest-indexed message log with parent links and heads.
pub struct MerkelizedState {
    messages: Vec<SharedMessage>,
    digests: Vec<String>,
    parents_by_digest: Vec<(String, Vec<String>)>,
    head_digests: Vec<String>,
}

impl View for MerkelizedState {
    type V = StateModel;

    closed spec fn view(&self) -> StateModel {
        StateModel {
            messages: message_models(self.messages@),
            digests: views_of(self.digests@),
            parents: parent_models(self.parents_by_digest@),
            heads: Set::new(|t: Seq<char>| has_view(self.head_digests@, t)),
        }
    }
}

impl MerkelizedState {
    pub closed spec fn wf(&self) -> bool {
        &&& strictly_sorted(views_of(self.head_digests@))
        &&& heads_law(self@)
    }

    /// The heads of a well-formed log obey `heads_law`.
    pub proof fn lemma_heads(&self)
        requires
            self.wf(),
        ensures
            heads_law(self@),
    {
    }

    /// An empty log.
    pub fn new() -> (s: MerkelizedState)
        ensures
            s.wf(),
            s@.messages.len() == 0,
            s@.digests.len() == 0,
            s@.parents.len() == 0,
            s@.heads == Set::<Seq<char>>::empty(),
    {
        let s = MerkelizedState {
            messages: Vec::new(),
            digests: Vec::new(),
            parents_by_digest: Vec::new(),
            head_digests: Vec::new(),
        };
        proof {
            assert(s@.heads =~= Set::<Seq<char>>::empty());
            assert(views_of(s.head_digests@) =~= Seq::<Seq<char>>::empty());
            assert(s@.digests =~= Seq::<Seq<char>>::empty());
            assert(s@.messages =~= Seq::<MessageModel>::empty());
        }
        s
    }

    /// The last known digest, or the empty text.
    pub fn latest_digest(&self) -> (d: String)
        ensures
            d@ == (if self@.digests.len() == 0 { Seq::<char>::empty() } else { self@.digests.last() }),
    {
        let n = self.digests.len();
        if n == 0 {
            String::new()
        } else {
            copy_str(self.digests[n - 1].as_str())
        }
    }

    pub fn digest_count(&self) -> (n: usize)
        ensures
            n == self@.digests.len(),
    {
        self.digests.len()
    }

    pub fn message_count(&self) -> (n: usize)
        ensures
            n == self@.messages.len(),
    {
        self.messages.len()
    }

    pub fn contains_digest(&self, digest: &str) -> (r: bool)
        ensures
            r == self@.digests.contains(digest@),
    {
        contains_str(&self.digests, digest)
    }

    /// The heads of a well-formed log, in ascending order, hold each head
    /// once and nothing else.
    pub proof fn lemma_sorted_heads_of(&self)
        requires
            self.wf(),
        ensures
            strictly_sorted(sorted_heads(self@.heads)),
            forall|t: Seq<char>| #[trigger] sorted_heads(self@.heads).contains(t) <==> self@.heads.contains(t),
    {
        let q = views_of(self.head_digests@);
        assert forall|t: Seq<char>| #[trigger] q.contains(t) <==> self@.heads.contains(t) by {
            crate::state_memento::lemma_has_view_contains(self.head_digests@, t);
        }
        lemma_sorted_heads(self@.heads, q);
    }

    /// The heads, in ascending order.
    pub fn head_digest_list(&self) -> (r: Vec<String>)
        requires
            self.wf(),
        ensures
            views_of(r@) == sorted_heads(self@.heads),
            forall|t: Seq<char>| #[trigger] views_of(r@).contains(t) <==> self@.heads.contains(t),
    {
        let mut out: Vec<String> = Vec::new();
        let mut i: usize = 0;
        while i < self.head_digests.len()
            invariant
                i <= self.head_digests@.len(),
                out@.len() == i,
                forall|j: int| 0 <= j < i ==> #[trigger] out@[j]@ == self.head_digests@[j]@,
            decreases self.head_digests@.len() - i,
        {
            out.push(copy_str(self.head_digests[i].as_str()));
            i += 1;
        }
        proof {
            assert(views_of(out@) =~= views_of(self.head_digests@));
            assert forall|t: Seq<char>| #[trigger] views_of(out@).contains(t) <==> self@.heads.contains(t) by {
                if has_view(self.head_digests@, t) {
                    let k = choose|k: int| 0 <= k < self.head_digests@.len() && #[trigger] self.head_digests@[k]@ == t;
                    assert(views_of(out@)[k] == t);
                }
                if views_of(out@).contains(t) {
                    let k = choose|k: int| 0 <= k < views_of(out@).len() && #[trigger] views_of(out@)[k] == t;
                    assert(self.head_digests@[k]@ == t);
                }
            }
            lemma_sorted_heads(self@.heads, views_of(out@));
        }
        out
    }

    /// Records `message` under `digest` with `parent_digests`, and stores its
    /// payload under the digest.
    pub fn record_message(
        &mut self,
        storage: &mut CoreStorage,
        message: SharedMessage,
        digest: String,
        parent_digests: Vec<String>,
    )
        requires
            old(self).wf(),
            old(storage).wf(),
        ensures
            final(self).wf(),
            final(self)@ == recorded(old(self)@, message@, digest@, views_of(parent_digests@)),
            final(storage).wf(),
            final(storage).spec_mode() == old(storage).spec_mode(),
            final(storage).spec_store() == old(storage).spec_store().insert(digest@, message@.data),
    {
        let ghost old_view = self@;
        let ghost m = message@;
        let ghost ps = views_of(parent_digests@);
        let mut copied: Vec<String> = Vec::new();
        let mut i: usize = 0;
        while i < parent_digests.len()
            invariant
                i <= parent_digests@.len(),
                self.messages@ == old(self).messages@,
                self.digests@ == old(self).digests@,
                self.parents_by_digest@ == old(self).parents_by_digest@,
                old_view == old(self)@,
                strictly_sorted(views_of(self.head_digests@)),
                copied@.len() == i,
                forall|j: int| 0 <= j < i ==> #[trigger] copied@[j]@ == parent_digests@[j]@,
                forall|t: Seq<char>| #![trigger has_view(self.head_digests@, t)] has_view(self.head_digests@, t) <==> (has_view(old(self).head_digests@, t) && !views_of(parent_digests@).take(i as int).contains(t)),
            decreases parent_digests@.len() - i,
        {
            let ghost before = self.head_digests@;
            let p = parent_digests[i].as_str();
            remove_sorted(&mut self.head_digests, p);
            copied.push(copy_str(p));
            proof {
                let pv = views_of(parent_digests@);
                assert(pv[i as int] == p@);
                assert forall|t: Seq<char>| #![trigger has_view(self.head_digests@, t)] has_view(self.head_digests@, t) <==> (has_view(old(self).head_digests@, t) && !pv.take(i + 1).contains(t)) by {
                    lemma_take_push_contains(pv, i as int, t);
                    assert(has_view(self.head_digests@, t) <==> (has_view(before, t) && t != p@));
                    assert(has_view(before, t) <==> (has_view(old(self).head_digests@, t) && !pv.take(i as int).contains(t)));
                }
            }
            i += 1;
        }
        let data = clone_json(&message.data);
        self.messages.push(message);
        self.digests.push(copy_str(digest.as_str()));
        insert_sorted_unique(&mut self.head_digests, copy_str(digest.as_str()));
        self.parents_by_digest.push((copy_str(digest.as_str()), copied));
        storage.write(digest.as_str(), data);
        proof {
            let pv = views_of(parent_digests@);
            assert(pv.take(pv.len() as int) =~= pv);
            assert(views_of(copied@) =~= pv);
            assert(self@.messages =~= old_view.messages.push(m));
            assert(self@.digests =~= old_view.digests.push(digest@));
            assert(self@.parents =~= old_view.parents.push((digest@, pv)));
            assert forall|t: Seq<char>| self@.heads.contains(t) <==> old_view.heads.difference(pv.to_set()).insert(digest@).contains(t) by {
                if pv.contains(t) {
                    assert(pv.to_set().contains(t));
                }
                if pv.to_set().contains(t) {
                    assert(pv.contains(t));
                }
            }
            assert(self@.heads =~= old_view.heads.difference(pv.to_set()).insert(digest@));
            lemma_recorded_heads_law(old_view, m, digest@, pv);
        }
    }

    /// Adds a digest received from a peer; returns false (changing nothing)
    /// when it is already known.
    pub fn add_digest(&mut self, digest: String) -> (added: bool)
        ensures
            added == !old(self)@.digests.contains(digest@),
            final(self)@.digests == (if added { old(self)@.digests.push(digest@) } else { old(self)@.digests }),
            final(self)@.messages == old(self)@.messages,
            final(self)@.parents == old(self)@.parents,
            final(self)@.heads == old(self)@.heads,
            final(self).wf() == old(self).wf(),
    {
        if contains_str(&self.digests, digest.as_str()) {
            return false;
        }
        let ghost before = self@.digests;
        self.digests.push(digest);
        proof {
            assert(self@.digests =~= before.push(self.digests@.last()@));
        }
        true
    }

    fn copies_from(&self, start: usize) -> (v: Vec<SharedMessage>)
        requires
            start <= self@.messages.len(),
        ensures
            message_models(v@) == self@.messages.subrange(start as int, self@.messages.len() as int),
    {
        let mut v: Vec<SharedMessage> = Vec::new();
        let mut i: usize = start;
        while i < self.messages.len()
            invariant
                start <= i <= self.messages@.len(),
                message_models(v@) == self@.messages.subrange(start as int, i as int),
            decreases self.messages@.len() - i,
        {
            let m = self.messages[i].copy();
            let ghost before = v@;
            v.push(m);
            proof {
                assert(message_models(v@) =~= message_models(before).push(self.messages@[i as int]@));
                assert(self@.messages.subrange(start as int, i + 1) =~= self@.messages.subrange(start as int, i as int).push(self@.messages[i as int]));
            }
            i += 1;
        }
        v
    }

    /// Copies of the messages after position `start` when it is in range;
    /// none otherwise.
    pub fn messages_from(&self, start: usize) -> (v: Vec<SharedMessage>)
        ensures
            message_models(v@) == (if start <= self@.messages.len() {
                self@.messages.subrange(start as int, self@.messages.len() as int)
            } else {
                Seq::empty()
            }),
    {
        if start <= self.messages.len() {
            self.copies_from(start)
        } else {
            let v: Vec<SharedMessage> = Vec::new();
            proof {
                assert(message_models(v@) =~= Seq::<MessageModel>::empty());
            }
            v
        }
    }

    /// The messages recorded after `digest` (see `messages_since`).
    pub fn messages_since_digest(&self, digest: &str) -> (v: Vec<SharedMessage>)
        ensures
            message_models(v@) == messages_since(self@, digest@),
    {
        proof {
            reveal_strlit("");
        }
        if self.messages.len() == 0 {
            let v: Vec<SharedMessage> = Vec::new();
            proof {
                assert(message_models(v@) =~= Seq::<MessageModel>::empty());
            }
            return v;
        }
        if str_equal(digest, "") {
            proof {
                assert(self@.messages.subrange(0, self@.messages.len() as int) =~= self@.messages);
            }
            return self.copies_from(0);
        }
        proof {
            assert(digest@.len() != 0) by {
                if digest@.len() == 0 {
                    assert(digest@ =~= ""@);
                }
            }
        }
        let n = self.digests.len();
        match index_of_str(&self.digests, digest) {
            Some(idx) => {
                proof {
                    assert(self@.digests[idx as int] == digest@);
                }
                assert(idx < n);
                self.messages_from(idx + 1)
            },
            None => {
                let v: Vec<SharedMessage> = Vec::new();
                proof {
                    assert(message_models(v@) =~= Seq::<MessageModel>::empty());
                }
                v
            },
        }
    }
}


/// A payload that arrives a second time changes neither the log nor the
/// store: logging is idempotent.
pub proof fn lemma_log_after_idempotent(s: StateModel, store: Map<Seq<char>, Json>, m: MessageModel)
    ensures
        log_after(log_after(s, m), m) == log_after(s, m),
        store_after_log(store_after_log(store, s, m), log_after(s, m), m) == store_after_log(store, s, m),
{
    let d = digest_of(m.data);
    if !s.digests.contains(d) {
        let r = recorded(s, m, d, extract_parents(m.data));
        assert(r.digests[r.digests.len() - 1] == d);
        assert(r.digests.contains(d));
    }
}

/// After a message with a new payload is logged, its digest is the latest
/// digest and a head.
pub proof fn lemma_logged_is_latest_head(s: StateModel, m: MessageModel)
    requires
        !s.digests.contains(digest_of(m.data)),
    ensures
        latest_of(log_after(s, m)) == digest_of(m.data),
        log_after(s, m).heads.contains(digest_of(m.data)),
        log_after(s, m).digests.contains(digest_of(m.data)),
{
    let r = log_after(s, m);
    assert(r.digests[r.digests.len() - 1] == digest_of(m.data));
}


/// Digest sync hands out everything recorded after a known digest: when
/// `digest` first appears at position `i` of the digests and a message is
/// recorded there, the messages since it are all the later messages, in
/// order, so that the messages up to `i` followed by them give the whole
/// log.
pub proof fn lemma_messages_since_is_suffix(s: StateModel, digest: Seq<char>, i: int)
    requires
        0 <= i < s.messages.len(),
        i < s.digests.len(),
        s.digests[i] == digest,
        forall|k: int| 0 <= k < i ==> s.digests[k] != digest,
        digest.len() > 0,
    ensures
        messages_since(s, digest).len() == s.messages.len() - (i + 1),
        s.messages.take(i + 1) + messages_since(s, digest) == s.messages,
{
    crate::text::lemma_first_index_of(s.digests, digest, i);
    assert(s.digests.contains(digest));
    assert(s.messages.take(i + 1) + messages_since(s, digest) =~= s.messages);
}


/// Without a digest, digest sync hands out the whole log; for a digest the
/// log does not know, nothing.
pub proof fn lemma_messages_since_edges(s: StateModel, digest: Seq<char>)
    ensures
        digest.len() == 0 ==> messages_since(s, digest) == s.messages,
        !s.digests.contains(digest) && digest.len() > 0 ==> messages_since(s, digest).len() == 0,
{
}

} // verus!
