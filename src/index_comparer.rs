//! Reconciliation of a client index with the server index: for each path,
//! the action that brings the two sides together.
use vstd::prelude::*;
use crate::strmap::{StrMap, lemma_pairs_to_map_dom, lemma_pairs_to_map_index};

verus! {

/// The side whose evidence wins where the other side's is ambiguous.
#[derive(Clone, Copy, Debug, PartialEq, Eq, Structural)]
pub enum SourceOfTruth {
    Client,
    Server,
}

/// What the server decides for one path. `Get`: the client is to fetch
/// the server's copy. `Put`: the client is to upload its copy. `Delete`: the
/// client is to remove its copy. `SelfDelete`: the server removes its own
/// copy; this one is never sent to the client.
#[derive(Clone, Copy, Debug, PartialEq, Eq, Structural)]
pub enum Action {
    Get,
    Put,
    Delete,
    SelfDelete,
}

impl View for Action {
    type V = Action;

    open spec fn view(&self) -> Action {
        *self
    }
}

impl Action {
    /// The action's name on the wire.
    pub fn wire_name(&self) -> (r: &'static str)
        ensures
            r@ == action_name(*self),
    {
        match self {
            Action::Get => "GET",
            Action::Put => "PUT",
            Action::Delete => "DELETE",
            Action::SelfDelete => "SELF_DELETE",
        }
    }
}

pub open spec fn action_name(a: Action) -> Seq<char> {
    match a {
        Action::Get => "GET"@,
        Action::Put => "PUT"@,
        Action::Delete => "DELETE"@,
        Action::SelfDelete => "SELF_DELETE"@,
    }
}

/// A path mapped to a modification time in unix seconds.
pub type IndexMap = Map<Seq<char>, u64>;

/// The key under which an index records when it was built.
pub open spec fn timestamp_key() -> Seq<char> {
    "#timestamp"@
}

/// Keys that begin with `#` carry metadata, not files.
pub open spec fn is_meta(p: Seq<char>) -> bool {
    p.len() > 0 && p[0] == '#'
}

pub open spec fn lookup(m: IndexMap, p: Seq<char>) -> Option<u64> {
    if m.contains_key(p) {
        Some(m[p])
    } else {
        None
    }
}

/// When the client index was built; zero if it does not say.
pub open spec fn client_stamp(c: IndexMap) -> u64 {
    match lookup(c, timestamp_key()) {
        Some(t) => t,
        None => 0,
    }
}

/// The action for path `p`, given client index `c`, server index `s`,
/// the side of truth and the server's deletions `d`. A client time of zero
/// means that the client deleted the file.
pub open spec fn action_for(
    c: IndexMap,
    s: IndexMap,
    truth: SourceOfTruth,
    d: IndexMap,
    p: Seq<char>,
) -> Option<Action> {
    if is_meta(p) {
        None
    } else if c.contains_key(p) {
        let cp = c[p];
        if s.contains_key(p) {
            let sp = s[p];
            if cp == sp {
                None
            } else if cp == 0 {
                if truth == SourceOfTruth::Client && client_stamp(c) > sp {
                    Some(Action::SelfDelete)
                } else {
                    Some(Action::Get)
                }
            } else if sp > cp {
                Some(Action::Get)
            } else {
                Some(Action::Put)
            }
        } else if cp != 0 {
            if truth == SourceOfTruth::Client && (!d.contains_key(p) || d[p] < cp) {
                Some(Action::Put)
            } else {
                Some(Action::Delete)
            }
        } else {
            None
        }
    } else if s.contains_key(p) {
        Some(Action::Get)
    } else {
        None
    }
}

/// The whole action plan.
pub open spec fn plan(c: IndexMap, s: IndexMap, truth: SourceOfTruth, d: IndexMap) -> Map<
    Seq<char>,
    Action,
> {
    Map::new(|p: Seq<char>| action_for(c, s, truth, d, p) is Some, |p: Seq<char>| action_for(c, s, truth, d, p)->Some_0)
}

/// Whether `key` begins with `#`.
pub fn is_meta_key(key: &str) -> (r: bool)
    ensures
        r == is_meta(key@),
{
    if key.is_empty() {
        false
    } else {
        key.get_char(0) == '#'
    }
}

pub struct IndexComparer {
    pub client_index: StrMap<u64>,
    pub server_index: StrMap<u64>,
    pub source_of_truth: SourceOfTruth,
    pub server_deleted: StrMap<u64>,
}

impl IndexComparer {
    pub open spec fn wf(&self) -> bool {
        self.client_index.wf() && self.server_index.wf() && self.server_deleted.wf()
    }

    pub fn new(
        client_index: StrMap<u64>,
        server_index: StrMap<u64>,
        source_of_truth: SourceOfTruth,
        server_deleted: StrMap<u64>,
    ) -> (r: Self)
        ensures
            r.client_index == client_index,
            r.server_index == server_index,
            r.source_of_truth == source_of_truth,
            r.server_deleted == server_deleted,
    {
        IndexComparer { client_index, server_index, source_of_truth, server_deleted }
    }

    pub open spec fn spec_plan(&self) -> Map<Seq<char>, Action> {
        plan(
            self.client_index.map(),
            self.server_index.map(),
            self.source_of_truth,
            self.server_deleted.map(),
        )
    }

    /// The action for every path on which the two indexes disagree.
    pub fn compare(&self) -> (r: StrMap<Action>)
        requires
            self.wf(),
        ensures
            r.wf(),
            r.map() == self.spec_plan(),
    {
        let c = &self.client_index;
        let s = &self.server_index;
        let d = &self.server_deleted;
        let ghost cm = c.map();
        let ghost sm = s.map();
        let ghost dm = d.map();
        let truth = self.source_of_truth;
        let stamp: u64 = match c.get("#timestamp") {
            Some(t) => *t,
            None => 0,
        };
        assert(stamp == client_stamp(cm));
        let mut result: StrMap<Action> = StrMap::new();
        let mut i: usize = 0;
        while i < c.entries.len()
            invariant
                c.wf(),
                s.wf(),
                d.wf(),
                cm == c.map(),
                sm == s.map(),
                dm == d.map(),
                truth == self.source_of_truth,
                stamp == client_stamp(cm),
                0 <= i <= c.entries@.len(),
                result.wf(),
                forall|p: Seq<char>| #[trigger] result.map().contains_key(p) ==> action_for(cm, sm, truth, dm, p)
                    == Some(result.map()[p]),
                forall|j: int|
                    0 <= j < i && (action_for(cm, sm, truth, dm, #[trigger] c.pairs()[j].0) is Some)
                        ==> result.map().contains_key(c.pairs()[j].0),
            decreases c.entries@.len() - i,
        {
            let key = c.entries[i].0.as_str();
            let cp = c.entries[i].1;
            proof {
                lemma_pairs_to_map_index(c.pairs(), i as int);
            }
            assert(key@ == c.pairs()[i as int].0);
            if !is_meta_key(key) {
                let action: Option<Action> = match s.get(key) {
                    Some(sp) => {
                        let sp = *sp;
                        if cp == sp {
                            None
                        } else if cp == 0 {
                            if truth == SourceOfTruth::Client && stamp > sp {
                                Some(Action::SelfDelete)
                            } else {
                                Some(Action::Get)
                            }
                        } else if sp > cp {
                            Some(Action::Get)
                        } else {
                            Some(Action::Put)
                        }
                    },
                    None => {
                        if cp != 0 {
                            let newer = match d.get(key) {
                                None => true,
                                Some(t) => *t < cp,
                            };
                            if truth == SourceOfTruth::Client && newer {
                                Some(Action::Put)
                            } else {
                                Some(Action::Delete)
                            }
                        } else {
                            None
                        }
                    },
                };
                assert(action == action_for(cm, sm, truth, dm, key@));
                match action {
                    Some(a) => {
                                result.insert(c.entries[i].0.clone(), a);
                    },
                    None => {},
                }
            }
            i = i + 1;
        }
        let mut k: usize = 0;
        while k < s.entries.len()
            invariant
                c.wf(),
                s.wf(),
                d.wf(),
                cm == c.map(),
                sm == s.map(),
                dm == d.map(),
                truth == self.source_of_truth,
                0 <= k <= s.entries@.len(),
                result.wf(),
                forall|p: Seq<char>| #[trigger] result.map().contains_key(p) ==> action_for(cm, sm, truth, dm, p)
                    == Some(result.map()[p]),
                forall|j: int|
                    0 <= j < c.pairs().len() && (action_for(cm, sm, truth, dm, #[trigger] c.pairs()[j].0) is Some)
                        ==> result.map().contains_key(c.pairs()[j].0),
                forall|j: int|
                    0 <= j < k && (action_for(cm, sm, truth, dm, #[trigger] s.pairs()[j].0) is Some)
                        ==> result.map().contains_key(s.pairs()[j].0),
            decreases s.entries@.len() - k,
        {
            let key = s.entries[k].0.as_str();
            proof {
                lemma_pairs_to_map_index(s.pairs(), k as int);
            }
            proof {
                lemma_pairs_to_map_dom(c.pairs(), key@);
            }
            if !is_meta_key(key) && !c.contains_key(key) {
                result.insert(s.entries[k].0.clone(), Action::Get);
            }
            k = k + 1;
        }
        proof {
            assert forall|p: Seq<char>| #[trigger] result.map().contains_key(p) == self.spec_plan().contains_key(p) by {
                if action_for(cm, sm, truth, dm, p) is Some {
                    if cm.contains_key(p) {
                        lemma_pairs_to_map_dom(c.pairs(), p);
                    } else {
                        lemma_pairs_to_map_dom(s.pairs(), p);
                    }
                }
            }
            assert(result.map() =~= self.spec_plan());
        }
        result
    }
}

/// The client's entry for `p` once the plan has been carried out: a fetched
/// file takes the server's time, a deleted one is gone, and an entry of zero
/// (a file the client deleted) no longer appears.
pub open spec fn client_entry_after(
    c: IndexMap,
    s: IndexMap,
    actions: Map<Seq<char>, Action>,
    p: Seq<char>,
) -> Option<u64> {
    if is_meta(p) {
        lookup(c, p)
    } else {
        let v = if actions.contains_key(p) {
            match actions[p] {
                Action::Get => lookup(s, p),
                Action::Put => lookup(c, p),
                Action::Delete => None,
                Action::SelfDelete => None,
            }
        } else {
            lookup(c, p)
        };
        if v == Some(0u64) {
            None
        } else {
            v
        }
    }
}

/// The server's entry for `p` once the plan has been carried out: an
/// uploaded file takes the client's time and a self-deleted one is gone.
pub open spec fn server_entry_after(
    c: IndexMap,
    s: IndexMap,
    actions: Map<Seq<char>, Action>,
    p: Seq<char>,
) -> Option<u64> {
    if !is_meta(p) && actions.contains_key(p) {
        match actions[p] {
            Action::Put => lookup(c, p),
            Action::SelfDelete => None,
            _ => lookup(s, p),
        }
    } else {
        lookup(s, p)
    }
}

pub open spec fn client_after(c: IndexMap, s: IndexMap, actions: Map<Seq<char>, Action>) -> IndexMap {
    Map::new(
        |p: Seq<char>| client_entry_after(c, s, actions, p) is Some,
        |p: Seq<char>| client_entry_after(c, s, actions, p)->Some_0,
    )
}

pub open spec fn server_after(c: IndexMap, s: IndexMap, actions: Map<Seq<char>, Action>) -> IndexMap {
    Map::new(
        |p: Seq<char>| server_entry_after(c, s, actions, p) is Some,
        |p: Seq<char>| server_entry_after(c, s, actions, p)->Some_0,
    )
}

/// Carrying out one round of actions and comparing again finds nothing to
/// do, whatever the side of truth and the deletions then. Server times are
/// nonzero, as zero stands for a deletion.
pub proof fn lemma_plan_idempotent(
    c: IndexMap,
    s: IndexMap,
    truth: SourceOfTruth,
    d: IndexMap,
    truth2: SourceOfTruth,
    d2: IndexMap,
)
    requires
        forall|p: Seq<char>| s.contains_key(p) && !is_meta(p) ==> s[p] != 0,
    ensures
        plan(
            client_after(c, s, plan(c, s, truth, d)),
            server_after(c, s, plan(c, s, truth, d)),
            truth2,
            d2,
        ) == Map::<Seq<char>, Action>::empty(),
{
    let a = plan(c, s, truth, d);
    let c2 = client_after(c, s, a);
    let s2 = server_after(c, s, a);
    assert forall|p: Seq<char>| !(#[trigger] plan(c2, s2, truth2, d2).contains_key(p)) by {
        assert(c2.contains_key(p) == client_entry_after(c, s, a, p) is Some);
        assert(s2.contains_key(p) == server_entry_after(c, s, a, p) is Some);
    }
    assert(plan(c2, s2, truth2, d2) =~= Map::<Seq<char>, Action>::empty());
}

/// No metadata key ever gets an action.
pub proof fn lemma_plan_skips_meta(c: IndexMap, s: IndexMap, truth: SourceOfTruth, d: IndexMap, p: Seq<char>)
    requires
        is_meta(p),
    ensures
        !plan(c, s, truth, d).contains_key(p),
{
}

/// A path with the same time on both sides gets no action.
pub proof fn lemma_plan_skips_equal(c: IndexMap, s: IndexMap, truth: SourceOfTruth, d: IndexMap, p: Seq<char>)
    requires
        c.contains_key(p),
        s.contains_key(p),
        c[p] == s[p],
    ensures
        !plan(c, s, truth, d).contains_key(p),
{
}

/// A path that neither index nor the deletions know gets no action.
pub proof fn lemma_plan_skips_unknown(c: IndexMap, s: IndexMap, truth: SourceOfTruth, d: IndexMap, p: Seq<char>)
    requires
        !c.contains_key(p),
        !s.contains_key(p),
        !d.contains_key(p),
    ensures
        !plan(c, s, truth, d).contains_key(p),
{
}

} // verus!
