//! Aggregation of the messages of all linters by file, the plan of patches
//! to apply, and the sorted, de-duplicated set of files to lint.
use vstd::prelude::*;
use crate::lint_message::{copy_text, LintMessage};
use crate::linter::paths_view;
use crate::path::AbsPath;
use crate::text::{compare_text, lemma_text_cmp_antisym, lemma_text_lt_trans, text_equals, text_lt};

verus! {

/// The view of an optional text.
pub open spec fn opt_view(k: Option<String>) -> Option<Seq<char>> {
    match k {
        Some(s) => Some(s@),
        None => None,
    }
}

/// The file a message is grouped under; none for a general message.
pub open spec fn key_of(m: LintMessage) -> Option<Seq<char>> {
    opt_view(m.path)
}

/// Keys sort with the general (no-file) key first, then files by their text.
pub open spec fn key_lt(a: Option<Seq<char>>, b: Option<Seq<char>>) -> bool {
    match (a, b) {
        (None, Some(_)) => true,
        (Some(x), Some(y)) => text_lt(x, y),
        _ => false,
    }
}

/// The messages grouped by file.
pub type Grouped = Map<Option<Seq<char>>, Seq<LintMessage>>;

/// The messages under `k`; none where `k` is absent.
pub open spec fn lints_at(m: Grouped, k: Option<Seq<char>>) -> Seq<LintMessage> {
    if m.contains_key(k) {
        m[k]
    } else {
        Seq::<LintMessage>::empty()
    }
}

/// `m` with each message of `lints`, in order, added at the end of the list
/// for its file.
pub open spec fn add_batch(m: Grouped, lints: Seq<LintMessage>) -> Grouped
    decreases lints.len(),
{
    if lints.len() == 0 {
        m
    } else {
        let prev = add_batch(m, lints.drop_last());
        let k = key_of(lints.last());
        prev.insert(k, lints_at(prev, k).push(lints.last()))
    }
}

/// The messages of `lints` grouped under `k`, in order.
pub open spec fn lints_with_key(lints: Seq<LintMessage>, k: Option<Seq<char>>) -> Seq<LintMessage>
    decreases lints.len(),
{
    if lints.len() == 0 {
        lints
    } else if key_of(lints.last()) == k {
        lints_with_key(lints.drop_last(), k).push(lints.last())
    } else {
        lints_with_key(lints.drop_last(), k)
    }
}

/// The batches of all linters merged one after the other.
pub open spec fn aggregate(batches: Seq<Seq<LintMessage>>) -> Grouped
    decreases batches.len(),
{
    if batches.len() == 0 {
        Map::<Option<Seq<char>>, Seq<LintMessage>>::empty()
    } else {
        add_batch(aggregate(batches.drop_last()), batches.last())
    }
}

/// Adding a batch appends, under each file, the batch's messages for it, and
/// leaves a file present exactly where it was present or got a message.
pub proof fn lemma_add_batch_at(m: Grouped, lints: Seq<LintMessage>, k: Option<Seq<char>>)
    ensures
        lints_at(add_batch(m, lints), k) == lints_at(m, k) + lints_with_key(lints, k),
        add_batch(m, lints).contains_key(k) <==> (m.contains_key(k) || lints_with_key(
            lints,
            k,
        ).len() > 0),
    decreases lints.len(),
{
    if lints.len() == 0 {
        assert(lints_at(m, k) + lints_with_key(lints, k) =~= lints_at(m, k));
    } else {
        lemma_add_batch_at(m, lints.drop_last(), k);
        let prev = add_batch(m, lints.drop_last());
        if key_of(lints.last()) == k {
            assert(lints_at(m, k) + lints_with_key(lints, k) =~= (lints_at(m, k)
                + lints_with_key(lints.drop_last(), k)).push(lints.last()));
        }
    }
}

pub proof fn lemma_lints_with_key_has(lints: Seq<LintMessage>, j: int)
    requires
        0 <= j < lints.len(),
    ensures
        lints_with_key(lints, key_of(lints[j])).contains(lints[j]),
    decreases lints.len(),
{
    let k = key_of(lints[j]);
    if j == lints.len() - 1 {
        assert(lints_with_key(lints, k).last() == lints[j]);
        assert(lints_with_key(lints, k)[lints_with_key(lints, k).len() - 1] == lints[j]);
    } else {
        lemma_lints_with_key_has(lints.drop_last(), j);
        let prev = lints_with_key(lints.drop_last(), k);
        let q = choose|q: int| 0 <= q < prev.len() && prev[q] == lints[j];
        if key_of(lints.last()) == k {
            assert(prev.push(lints.last())[q] == lints[j]);
        }
    }
}

/// Merging a linter's batch never takes away what was merged before, and
/// every message of every batch ends up under its file: a linter that failed
/// adds its failure message and does not keep the findings of the others
/// from the aggregate.
pub proof fn lemma_findings_survive(batches: Seq<Seq<LintMessage>>, b: int, j: int)
    requires
        0 <= b < batches.len(),
        0 <= j < batches[b].len(),
    ensures
        aggregate(batches).contains_key(key_of(batches[b][j])),
        aggregate(batches)[key_of(batches[b][j])].contains(batches[b][j]),
    decreases batches.len(),
{
    let k = key_of(batches[b][j]);
    let prev = aggregate(batches.drop_last());
    lemma_add_batch_at(prev, batches.last(), k);
    if b == batches.len() - 1 {
        lemma_lints_with_key_has(batches.last(), j);
        let w = lints_with_key(batches.last(), k);
        let q = choose|q: int| 0 <= q < w.len() && w[q] == batches[b][j];
        assert((lints_at(prev, k) + w)[lints_at(prev, k).len() + q] == batches[b][j]);
    } else {
        lemma_findings_survive(batches.drop_last(), b, j);
        assert(batches.drop_last()[b] == batches[b]);
        let q = choose|q: int| 0 <= q < prev[k].len() && prev[k][q] == batches[b][j];
        assert((lints_at(prev, k) + lints_with_key(batches.last(), k))[q] == batches[b][j]);
    }
}

/// Merging two batches in either order gives the same files and, for each
/// file, the same messages: the order in which linters finish does not
/// change what is reported.
pub proof fn lemma_merge_order_free(
    m: Grouped,
    first: Seq<LintMessage>,
    second: Seq<LintMessage>,
    k: Option<Seq<char>>,
)
    ensures
        add_batch(add_batch(m, first), second).contains_key(k) <==> add_batch(
            add_batch(m, second),
            first,
        ).contains_key(k),
        lints_at(add_batch(add_batch(m, first), second), k).to_multiset() == lints_at(
            add_batch(add_batch(m, second), first),
            k,
        ).to_multiset(),
{
    lemma_add_batch_at(m, first, k);
    lemma_add_batch_at(m, second, k);
    lemma_add_batch_at(add_batch(m, first), second, k);
    lemma_add_batch_at(add_batch(m, second), first, k);
    let base = lints_at(m, k);
    let a = lints_with_key(first, k);
    let b = lints_with_key(second, k);
    vstd::seq_lib::lemma_multiset_commutative(base + a, b);
    vstd::seq_lib::lemma_multiset_commutative(base + b, a);
    vstd::seq_lib::lemma_multiset_commutative(base, a);
    vstd::seq_lib::lemma_multiset_commutative(base, b);
    assert((base + a).to_multiset().add(b.to_multiset()) =~= (base + b).to_multiset().add(
        a.to_multiset(),
    ));
}

/// `k` is the view of one of the entries of `v`.
pub open spec fn listed(v: Seq<Option<String>>, k: Option<Seq<char>>) -> bool {
    exists|i: int| 0 <= i < v.len() && #[trigger] opt_view(v[i]) == k
}

/// Whether two optional texts are equal.
pub fn key_equals(a: &Option<String>, b: &Option<String>) -> (r: bool)
    ensures
        r == (opt_view(*a) == opt_view(*b)),
{
    match (a, b) {
        (None, None) => true,
        (Some(x), Some(y)) => text_equals(x.as_str(), y.as_str()),
        _ => false,
    }
}

/// Whether `a` sorts strictly before `b`.
pub fn key_less(a: &Option<String>, b: &Option<String>) -> (r: bool)
    ensures
        r == key_lt(opt_view(*a), opt_view(*b)),
{
    match (a, b) {
        (None, Some(_)) => true,
        (Some(x), Some(y)) => compare_text(x.as_str(), y.as_str()) < 0,
        _ => false,
    }
}

pub proof fn lemma_key_total(a: Option<Seq<char>>, b: Option<Seq<char>>)
    ensures
        a == b || key_lt(a, b) || key_lt(b, a),
        !(key_lt(a, b) && key_lt(b, a)),
        key_lt(a, b) ==> a != b,
{
    match (a, b) {
        (Some(x), Some(y)) => {
            lemma_text_cmp_antisym(x, y);
        },
        _ => {},
    }
}

pub proof fn lemma_key_trans(a: Option<Seq<char>>, b: Option<Seq<char>>, c: Option<Seq<char>>)
    requires
        key_lt(a, b),
        key_lt(b, c),
    ensures
        key_lt(a, c),
{
    match (a, b, c) {
        (Some(x), Some(y), Some(z)) => {
            lemma_text_lt_trans(x, y, z);
        },
        _ => {},
    }
}

/// The messages of all linters, grouped by file.
pub struct LintResults {
    keys: Vec<Option<String>>,
    lists: Vec<Vec<LintMessage>>,
    model: Ghost<Grouped>,
}

impl View for LintResults {
    type V = Grouped;

    closed spec fn view(&self) -> Grouped {
        self.model@
    }
}

impl LintResults {
    spec fn key_at(&self, i: int) -> Option<Seq<char>> {
        opt_view(self.keys@[i])
    }

    spec fn among_first(&self, n: int, k: Option<Seq<char>>) -> bool {
        exists|a: int| 0 <= a < n && #[trigger] self.key_at(a) == k
    }

    /// The keys are unique, each list is the model's list for its key, and
    /// no list is empty.
    pub closed spec fn wf(&self) -> bool {
        &&& self.keys.len() == self.lists.len()
        &&& forall|i: int, j: int|
            0 <= i < j < self.keys.len() ==> self.key_at(i) != self.key_at(j)
        &&& forall|i: int|
            0 <= i < self.keys.len() ==> self.model@.contains_key(#[trigger] self.key_at(i))
                && self.model@[self.key_at(i)] == self.lists@[i]@
        &&& forall|k: Option<Seq<char>>|
            #[trigger] self.model@.contains_key(k) ==> exists|i: int|
                0 <= i < self.keys.len() && #[trigger] self.key_at(i) == k
        &&& forall|k: Option<Seq<char>>| #[trigger]
            self.model@.contains_key(k) ==> self.model@[k].len() > 0
    }

    /// No messages.
    pub fn new() -> (r: LintResults)
        ensures
            r.wf(),
            r@ == Map::<Option<Seq<char>>, Seq<LintMessage>>::empty(),
    {
        LintResults {
            keys: Vec::new(),
            lists: Vec::new(),
            model: Ghost(Map::<Option<Seq<char>>, Seq<LintMessage>>::empty()),
        }
    }

    /// Adds a message at the end of the list for its file.
    pub fn add(&mut self, m: LintMessage)
        requires
            old(self).wf(),
        ensures
            final(self).wf(),
            final(self)@ == old(self)@.insert(key_of(m), lints_at(old(self)@, key_of(m)).push(m)),
    {
        let ghost k = key_of(m);
        let mut i: usize = 0;
        while i < self.keys.len()
            invariant
                self.wf(),
                *self == *old(self),
                k == key_of(m),
                i <= self.keys.len(),
                forall|j: int| 0 <= j < i ==> self.key_at(j) != k,
            decreases self.keys.len() - i,
        {
            if key_equals(&self.keys[i], &m.path) {
                let ghost old_lists = self.lists@;
                proof {
                    assert(self.key_at(i as int) == k);
                    assert(self.model@.contains_key(self.key_at(i as int)));
                    assert(self.model@[k] == old_lists[i as int]@);
                }
                let mut list = self.lists.remove(i);
                list.push(m);
                self.lists.insert(i, list);
                proof {
                    assert(self.lists@ =~= old_lists.update(i as int, list));
                }
                self.model = Ghost(self.model@.insert(k, lints_at(self.model@, k).push(m)));
                proof {
                    assert forall|a: int|
                        0 <= a < self.keys.len() implies self.model@.contains_key(
                        #[trigger] self.key_at(a),
                    ) && self.model@[self.key_at(a)] == self.lists@[a]@ by {
                        assert(old(self).key_at(a) == self.key_at(a));
                        if a != i {
                            assert(old(self).key_at(a) != old(self).key_at(i as int));
                            assert(old(self).model@.contains_key(old(self).key_at(a)));
                            assert(self.lists@[a] == old_lists[a]);
                        } else {
                            assert(self.lists@[a]@ =~= old_lists[a]@.push(m));
                        }
                    }
                    assert forall|q: Option<Seq<char>>| #[trigger]
                        self.model@.contains_key(q) implies exists|a: int|
                        0 <= a < self.keys.len() && #[trigger] self.key_at(a) == q by {
                        if q == k {
                            assert(self.key_at(i as int) == q);
                        } else {
                            assert(old(self).model@.contains_key(q));
                            let a = choose|a: int| 0 <= a < old(self).keys.len() && #[trigger] old(self).key_at(a) == q;
                            assert(self.key_at(a) == q);
                        }
                    }
                    assert(self.keys.len() == self.lists.len());
                    assert(forall|a: int, b: int|
                        0 <= a < b < self.keys.len() ==> self.key_at(a) != self.key_at(b)) by {
                        assert(forall|a: int| 0 <= a < self.keys.len() ==> old(self).key_at(a) == #[trigger] self.key_at(a));
                    }
                    assert forall|q: Option<Seq<char>>| #[trigger]
                        self.model@.contains_key(q) implies self.model@[q].len() > 0 by {
                        if q != k {
                            assert(old(self).model@.contains_key(q));
                        }
                    }
                }
                return;
            }
            i = i + 1;
        }
        let key = copy_text(&m.path);
        let ghost old_model = self.model@;
        proof {
            if old_model.contains_key(k) {
                let a = choose|a: int| 0 <= a < self.keys.len() && #[trigger] self.key_at(a) == k;
            }
        }
        self.keys.push(key);
        self.lists.push(vec![m]);
        self.model = Ghost(self.model@.insert(k, seq![m]));
        proof {
            assert(lints_at(old_model, k).push(m) =~= seq![m]);
            let n = self.keys.len() - 1;
            assert(self.key_at(n as int) == k);
            assert(self.lists@[n as int]@ =~= seq![m]);
            assert forall|a: int|
                0 <= a < self.keys.len() implies self.model@.contains_key(#[trigger] self.key_at(a))
                && self.model@[self.key_at(a)] == self.lists@[a]@ by {
                if a < n {
                    assert(old(self).key_at(a) == self.key_at(a));
                    assert(old(self).lists@[a] == self.lists@[a]);
                }
            }
            assert forall|a: int, b: int|
                0 <= a < b < self.keys.len() implies self.key_at(a) != self.key_at(b) by {
                if b < n {
                    assert(old(self).key_at(a) == self.key_at(a));
                    assert(old(self).key_at(b) == self.key_at(b));
                } else {
                    assert(old(self).key_at(a) == self.key_at(a));
                }
            }
            assert forall|q: Option<Seq<char>>| #[trigger]
                self.model@.contains_key(q) implies exists|a: int|
                0 <= a < self.keys.len() && #[trigger] self.key_at(a) == q by {
                if q == k {
                    assert(self.key_at(n as int) == q);
                } else {
                    assert(old_model.contains_key(q));
                    let a = choose|a: int| 0 <= a < old(self).keys.len() && #[trigger] old(self).key_at(a) == q;
                    assert(self.key_at(a) == q);
                }
            }
        }
    }

    /// Whether no message was added.
    pub fn is_empty(&self) -> (r: bool)
        requires
            self.wf(),
        ensures
            r == (self@.dom() =~= Set::<Option<Seq<char>>>::empty()),
    {
        if self.keys.len() == 0 {
            proof {
                assert forall|q: Option<Seq<char>>| !self@.dom().contains(q) by {
                    if self@.contains_key(q) {
                        let a = choose|a: int| 0 <= a < self.keys.len() && #[trigger] self.key_at(a) == q;
                    }
                }
            }
            true
        } else {
            proof {
                assert(self@.contains_key(self.key_at(0)));
            }
            false
        }
    }

    /// The messages for `key`, where there are any.
    pub fn lints_for(&self, key: &Option<String>) -> (r: Option<&Vec<LintMessage>>)
        requires
            self.wf(),
        ensures
            r is Some <==> self@.contains_key(opt_view(*key)),
            r matches Some(v) ==> v@ == self@[opt_view(*key)],
    {
        let mut i: usize = 0;
        while i < self.keys.len()
            invariant
                self.wf(),
                i <= self.keys.len(),
                forall|j: int| 0 <= j < i ==> self.key_at(j) != opt_view(*key),
            decreases self.keys.len() - i,
        {
            if key_equals(&self.keys[i], key) {
                assert(self.model@.contains_key(self.key_at(i as int)));
                return Some(&self.lists[i]);
            }
            i = i + 1;
        }
        proof {
            if self@.contains_key(opt_view(*key)) {
                let a = choose|a: int| 0 <= a < self.keys.len() && #[trigger] self.key_at(a) == opt_view(*key);
            }
        }
        None
    }

    /// The files that have messages, sorted, the general key first.
    pub fn sorted_keys(&self) -> (r: Vec<Option<String>>)
        requires
            self.wf(),
        ensures
            forall|i: int, j: int|
                0 <= i < j < r@.len() ==> key_lt(opt_view(r@[i]), opt_view(r@[j])),
            forall|k: Option<Seq<char>>|
                #![trigger self@.contains_key(k)]
                #![trigger listed(r@, k)]
                self@.contains_key(k) <==> listed(r@, k),
    {
        let mut out: Vec<Option<String>> = Vec::new();
        let mut n: usize = 0;
        while n < self.keys.len()
            invariant
                self.wf(),
                n <= self.keys.len(),
                forall|i: int, j: int|
                    0 <= i < j < out@.len() ==> key_lt(opt_view(out@[i]), opt_view(out@[j])),
                forall|k: Option<Seq<char>>|
                    #![trigger self.among_first(n as int, k)]
                    #![trigger listed(out@, k)]
                    self.among_first(n as int, k) <==> listed(out@, k),
            decreases self.keys.len() - n,
        {
            let x = copy_text(&self.keys[n]);
            let ghost kx = opt_view(x);
            proof {
                assert forall|i: int| 0 <= i < out@.len() implies opt_view(out@[i]) != kx by {
                    let k = opt_view(out@[i]);
                    assert(listed(out@, k));
                    assert(self.among_first(n as int, k));
                    let a = choose|a: int| 0 <= a < n && #[trigger] self.key_at(a) == k;
                    assert(self.key_at(a) != self.key_at(n as int));
                }
            }
            let mut p: usize = 0;
            while p < out.len() && !key_less(&x, &out[p])
                invariant
                    p <= out@.len(),
                    kx == opt_view(x),
                    forall|i: int| 0 <= i < p ==> key_lt(opt_view(out@[i]), kx),
                    forall|i: int| 0 <= i < out@.len() ==> opt_view(out@[i]) != kx,
                decreases out@.len() - p,
            {
                proof {
                    lemma_key_total(kx, opt_view(out@[p as int]));
                }
                p = p + 1;
            }
            let ghost before = out@;
            out.insert(p, x);
            proof {
                assert forall|i: int, j: int|
                    0 <= i < j < out@.len() implies key_lt(opt_view(out@[i]), opt_view(out@[j])) by {
                    if j < p {
                    } else if j == p {
                    } else if i < p {
                        assert(out@[j] == before[j - 1]);
                        assert(key_lt(opt_view(before[i]), kx));
                        lemma_key_trans(opt_view(before[i]), kx, opt_view(before[p as int]));
                        if j - 1 > p {
                            lemma_key_trans(opt_view(before[i]), opt_view(before[p as int]), opt_view(before[j - 1]));
                        }
                    } else if i == p {
                        assert(out@[j] == before[j - 1]);
                        if j - 1 > p {
                            lemma_key_trans(kx, opt_view(before[p as int]), opt_view(before[j - 1]));
                        }
                    } else {
                        assert(out@[i] == before[i - 1]);
                        assert(out@[j] == before[j - 1]);
                    }
                }
                assert forall|k: Option<Seq<char>>|
                    self.among_first(n + 1, k) <==> listed(out@, k) by {
                    if self.among_first(n + 1, k) {
                        let a = choose|a: int| 0 <= a < n + 1 && #[trigger] self.key_at(a) == k;
                        if a == n {
                            assert(opt_view(out@[p as int]) == k);
                        } else {
                            assert(self.among_first(n as int, k));
                            assert(listed(before, k));
                            let b = choose|b: int| 0 <= b < before.len() && #[trigger] opt_view(before[b]) == k;
                            if b < p {
                                assert(opt_view(out@[b]) == k);
                            } else {
                                assert(opt_view(out@[b + 1]) == k);
                            }
                        }
                    }
                    if listed(out@, k) {
                        let i = choose|i: int| 0 <= i < out@.len() && #[trigger] opt_view(out@[i]) == k;
                        if i == p {
                            assert(self.key_at(n as int) == k);
                        } else {
                            let b = if i < p { i } else { i - 1 };
                            assert(opt_view(before[b]) == k);
                            assert(listed(before, k));
                            assert(self.among_first(n as int, k));
                            let a = choose|a: int| 0 <= a < n && #[trigger] self.key_at(a) == k;
                            assert(self.key_at(a) == k);
                        }
                    }
                }
            }
            n = n + 1;
        }
        proof {
            assert forall|k: Option<Seq<char>>| self@.contains_key(k) <==> listed(out@, k) by {
                if self@.contains_key(k) {
                    let a = choose|a: int| 0 <= a < self.keys.len() && #[trigger] self.key_at(a) == k;
                    assert(self.among_first(n as int, k));
                }
                if listed(out@, k) {
                    assert(self.among_first(n as int, k));
                    let a = choose|a: int| 0 <= a < n && #[trigger] self.key_at(a) == k;
                }
            }
        }
        out
    }
}

/// The messages under each of `keys`, one key after the other.
pub open spec fn in_key_order(m: Grouped, keys: Seq<Option<Seq<char>>>) -> Seq<LintMessage>
    decreases keys.len(),
{
    if keys.len() == 0 {
        Seq::<LintMessage>::empty()
    } else {
        in_key_order(m, keys.drop_last()) + lints_at(m, keys.last())
    }
}

/// `keys` lists the files of `m`, each once, in sorted order.
pub open spec fn sorted_listing(m: Grouped, keys: Seq<Option<Seq<char>>>) -> bool {
    &&& forall|i: int, j: int| 0 <= i < j < keys.len() ==> key_lt(keys[i], keys[j])
    &&& forall|k: Option<Seq<char>>| #[trigger] m.contains_key(k) <==> keys.contains(k)
}

/// Two strictly sorted sequences of keys that hold the same keys are equal.
pub proof fn lemma_sorted_keys_unique(a: Seq<Option<Seq<char>>>, b: Seq<Option<Seq<char>>>)
    requires
        forall|i: int, j: int| 0 <= i < j < a.len() ==> key_lt(a[i], a[j]),
        forall|i: int, j: int| 0 <= i < j < b.len() ==> key_lt(b[i], b[j]),
        forall|k: Option<Seq<char>>| a.contains(k) <==> b.contains(k),
    ensures
        a == b,
    decreases a.len(),
{
    if a.len() == 0 {
        if b.len() > 0 {
            assert(b.contains(b[0]));
        }
        assert(a =~= b);
    } else if b.len() == 0 {
        assert(a.contains(a[0]));
    } else {
        assert(a.contains(a[0]));
        assert(b.contains(b[0]));
        let j = choose|j: int| 0 <= j < b.len() && b[j] == a[0];
        let i = choose|i: int| 0 <= i < a.len() && a[i] == b[0];
        if j > 0 && i > 0 {
            assert(key_lt(b[0], a[0]));
            assert(key_lt(a[0], b[0]));
            lemma_key_total(a[0], b[0]);
        } else if j > 0 {
            assert(key_lt(b[0], b[j]));
            lemma_key_total(b[0], b[j]);
        }
        assert(a[0] == b[0]);
        let ra = a.drop_first();
        let rb = b.drop_first();
        assert forall|k: Option<Seq<char>>| ra.contains(k) <==> rb.contains(k) by {
            if ra.contains(k) {
                let p = choose|p: int| 0 <= p < ra.len() && ra[p] == k;
                assert(a[p + 1] == k);
                lemma_key_total(a[0], k);
                assert(a.contains(k));
                let q = choose|q: int| 0 <= q < b.len() && b[q] == k;
                assert(q != 0);
                assert(rb[q - 1] == k);
            }
            if rb.contains(k) {
                let p = choose|p: int| 0 <= p < rb.len() && rb[p] == k;
                assert(b[p + 1] == k);
                lemma_key_total(b[0], k);
                assert(b.contains(k));
                let q = choose|q: int| 0 <= q < a.len() && a[q] == k;
                assert(q != 0);
                assert(ra[q - 1] == k);
            }
        }
        assert forall|x: int, y: int| 0 <= x < y < ra.len() implies key_lt(ra[x], ra[y]) by {
            assert(key_lt(a[x + 1], a[y + 1]));
        }
        assert forall|x: int, y: int| 0 <= x < y < rb.len() implies key_lt(rb[x], rb[y]) by {
            assert(key_lt(b[x + 1], b[y + 1]));
        }
        lemma_sorted_keys_unique(ra, rb);
        assert(a =~= seq![a[0]] + ra);
        assert(b =~= seq![b[0]] + rb);
    }
}

/// The messages are rendered in an order fixed by the aggregate alone: any
/// two sorted listings of its files put its messages in the same order.
pub proof fn lemma_render_order_fixed(
    m: Grouped,
    a: Seq<Option<Seq<char>>>,
    b: Seq<Option<Seq<char>>>,
)
    requires
        sorted_listing(m, a),
        sorted_listing(m, b),
    ensures
        in_key_order(m, a) == in_key_order(m, b),
{
    assert forall|k: Option<Seq<char>>| a.contains(k) <==> b.contains(k) by {
        if a.contains(k) {
            assert(m.contains_key(k));
        }
        if b.contains(k) {
            assert(m.contains_key(k));
        }
    }
    lemma_sorted_keys_unique(a, b);
}

impl LintResults {
    /// Every message, file by file in sorted order (the general messages
    /// first), each file's messages in the order they were merged.
    pub fn ordered_messages(&self) -> (r: Vec<LintMessage>)
        requires
            self.wf(),
        ensures
            exists|keys: Seq<Option<Seq<char>>>|
                sorted_listing(self@, keys) && r@ == #[trigger] in_key_order(self@, keys),
    {
        let keys = self.sorted_keys();
        let ghost kv = keys@.map_values(|k: Option<String>| opt_view(k));
        let mut out: Vec<LintMessage> = Vec::new();
        let mut i: usize = 0;
        proof {
            assert(kv.take(0) =~= Seq::<Option<Seq<char>>>::empty());
        }
        while i < keys.len()
            invariant
                self.wf(),
                kv == keys@.map_values(|k: Option<String>| opt_view(k)),
                i <= keys.len(),
                out@ == in_key_order(self@, kv.take(i as int)),
            decreases keys.len() - i,
        {
            proof {
                assert(kv.take(i + 1).drop_last() =~= kv.take(i as int));
            }
            let ghost before = out@;
            match self.lints_for(&keys[i]) {
                Some(lints) => {
                    let mut j: usize = 0;
                    while j < lints.len()
                        invariant
                            out@ == before + lints@.take(j as int),
                            j <= lints@.len(),
                        decreases lints@.len() - j,
                    {
                        out.push(lints[j].clone());
                        proof {
                            assert(before + lints@.take(j + 1) =~= (before + lints@.take(
                                j as int,
                            )).push(lints@[j as int]));
                        }
                        j = j + 1;
                    }
                    proof {
                        assert(lints@.take(j as int) =~= lints@);
                    }
                },
                None => {
                    proof {
                        assert(before + lints_at(self@, kv[i as int]) =~= before);
                    }
                },
            }
            i = i + 1;
        }
        proof {
            assert(kv.take(keys.len() as int) =~= kv);
            assert forall|k: Option<Seq<char>>| #[trigger] self@.contains_key(k) <==> kv.contains(k) by {
                if self@.contains_key(k) {
                    assert(listed(keys@, k));
                    let a = choose|a: int| 0 <= a < keys@.len() && #[trigger] opt_view(keys@[a]) == k;
                    assert(kv[a] == k);
                }
                if kv.contains(k) {
                    let a = choose|a: int| 0 <= a < kv.len() && kv[a] == k;
                    assert(opt_view(keys@[a]) == k);
                    assert(listed(keys@, k));
                }
            }
            assert(sorted_listing(self@, kv));
        }
        out
    }
}

/// Merges one linter's messages into the aggregate, each under its file.
pub fn group_lints_by_file(all_lints: &mut LintResults, lints: Vec<LintMessage>)
    requires
        old(all_lints).wf(),
    ensures
        final(all_lints).wf(),
        final(all_lints)@ == add_batch(old(all_lints)@, lints@),
{
    merge_batch(all_lints, &lints);
}

/// Merges one linter's messages into the aggregate, each under its file.
pub fn merge_batch(all_lints: &mut LintResults, lints: &Vec<LintMessage>)
    requires
        old(all_lints).wf(),
    ensures
        final(all_lints).wf(),
        final(all_lints)@ == add_batch(old(all_lints)@, lints@),
{
    let mut i: usize = 0;
    proof {
        assert(lints@.take(0) =~= Seq::<LintMessage>::empty());
    }
    while i < lints.len()
        invariant
            all_lints.wf(),
            i <= lints.len(),
            all_lints@ == add_batch(old(all_lints)@, lints@.take(i as int)),
        decreases lints.len() - i,
    {
        proof {
            assert(lints@.take(i + 1).drop_last() =~= lints@.take(i as int));
        }
        let m = lints[i].clone();
        all_lints.add(m);
        i = i + 1;
    }
    proof {
        assert(lints@.take(lints.len() as int) =~= lints@);
    }
}

/// The messages that carry no replacement text, in order.
pub open spec fn without_patches(lints: Seq<LintMessage>) -> Seq<LintMessage>
    decreases lints.len(),
{
    if lints.len() == 0 {
        lints
    } else if lints.last().replacement is None {
        without_patches(lints.drop_last()).push(lints.last())
    } else {
        without_patches(lints.drop_last())
    }
}

/// Drops the messages whose fix is about to be applied.
pub fn remove_patchable_lints(lints: Vec<LintMessage>) -> (r: Vec<LintMessage>)
    ensures
        r@ == without_patches(lints@),
{
    unpatched(&lints)
}

/// The messages that carry no replacement text, in order.
pub fn unpatched(lints: &Vec<LintMessage>) -> (r: Vec<LintMessage>)
    ensures
        r@ == without_patches(lints@),
{
    let mut out: Vec<LintMessage> = Vec::new();
    let mut i: usize = 0;
    proof {
        assert(lints@.take(0) =~= Seq::<LintMessage>::empty());
    }
    while i < lints.len()
        invariant
            i <= lints.len(),
            out@ == without_patches(lints@.take(i as int)),
        decreases lints.len() - i,
    {
        proof {
            assert(lints@.take(i + 1).drop_last() =~= lints@.take(i as int));
        }
        if lints[i].replacement.is_none() {
            out.push(lints[i].clone());
        }
        i = i + 1;
    }
    proof {
        assert(lints@.take(lints.len() as int) =~= lints@);
    }
    out
}

/// A replacement text to write to a file.
pub struct Patch {
    pub path: String,
    pub replacement: String,
}

/// Two messages propose a replacement for the same file.
pub struct PatchConflict {
    pub path: String,
}

impl PatchConflict {
    /// A description of the conflict that names the file.
    pub fn message(&self) -> (r: String)
        ensures
            r@ == "Two different linters proposed changes for the same file: "@ + self.path@,
    {
        let mut s = String::from_str("Two different linters proposed changes for the same file: ");
        s.append(self.path.as_str());
        s
    }
}

/// The file that a message's replacement is for, where it has both.
pub open spec fn patch_target(m: LintMessage) -> Option<Seq<char>> {
    match (m.path, m.replacement) {
        (Some(p), Some(_)) => Some(p@),
        _ => None,
    }
}

/// The patches that the messages carry, in order, as file and replacement.
pub open spec fn patches_of(lints: Seq<LintMessage>) -> Seq<(Seq<char>, Seq<char>)>
    decreases lints.len(),
{
    if lints.len() == 0 {
        Seq::<(Seq<char>, Seq<char>)>::empty()
    } else {
        match (lints.last().path, lints.last().replacement) {
            (Some(p), Some(t)) => patches_of(lints.drop_last()).push((p@, t@)),
            _ => patches_of(lints.drop_last()),
        }
    }
}

/// Two of the messages propose a replacement for the same file.
pub open spec fn conflicting(lints: Seq<LintMessage>) -> bool {
    exists|i: int, j: int|
        0 <= i < j < lints.len() && #[trigger] patch_target(lints[i]) is Some && patch_target(
            lints[i],
        ) == #[trigger] patch_target(lints[j])
}

/// The views of a sequence of patches.
pub open spec fn patches_view(v: Seq<Patch>) -> Seq<(Seq<char>, Seq<char>)> {
    v.map_values(|p: Patch| (p.path@, p.replacement@))
}

/// Two messages for one file that both carry a replacement are a conflict.
pub proof fn lemma_same_file_patches_conflict(lints: Seq<LintMessage>, i: int, j: int)
    requires
        0 <= i < j < lints.len(),
        lints[i].path is Some,
        lints[j].path is Some,
        lints[i].path.unwrap()@ == lints[j].path.unwrap()@,
        lints[i].replacement is Some,
        lints[j].replacement is Some,
    ensures
        conflicting(lints),
{
    assert(patch_target(lints[i]) is Some && patch_target(lints[i]) == patch_target(lints[j]));
}

/// Plans the patches to apply: every replacement that the messages carry,
/// unless two of them are for the same file, which fails before anything is
/// written and names that file.
pub fn plan_patches(lints: &Vec<LintMessage>) -> (r: Result<Vec<Patch>, PatchConflict>)
    ensures
        r is Ok <==> !conflicting(lints@),
        r matches Ok(ps) ==> patches_view(ps@) == patches_of(lints@),
        r matches Err(c) ==> exists|i: int, j: int|
            0 <= i < j < lints@.len() && patch_target(lints@[i]) == Some(c.path@)
                && patch_target(lints@[j]) == Some(c.path@),
{
    let mut out: Vec<Patch> = Vec::new();
    let ghost mut origin: Seq<int> = Seq::empty();
    let mut i: usize = 0;
    proof {
        assert(lints@.take(0) =~= Seq::<LintMessage>::empty());
        assert(patches_view(out@) =~= Seq::<(Seq<char>, Seq<char>)>::empty());
    }
    while i < lints.len()
        invariant
            i <= lints.len(),
            patches_view(out@) == patches_of(lints@.take(i as int)),
            origin.len() == out@.len(),
            forall|q: int|
                0 <= q < out@.len() ==> 0 <= #[trigger] origin[q] < i && patch_target(
                    lints@[origin[q]],
                ) == Some(out@[q].path@),
            forall|a: int|
                0 <= a < i && #[trigger] patch_target(lints@[a]) is Some ==> exists|q: int|
                    0 <= q < out@.len() && origin[q] == a,
            !conflicting(lints@.take(i as int)),
        decreases lints.len() - i,
    {
        proof {
            assert(lints@.take(i + 1).drop_last() =~= lints@.take(i as int));
        }
        match (&lints[i].path, &lints[i].replacement) {
            (Some(p), Some(t)) => {
                let mut q: usize = 0;
                while q < out.len()
                    invariant
                        i < lints.len(),
                        q <= out@.len(),
                        origin.len() == out@.len(),
                        forall|w: int|
                            0 <= w < out@.len() ==> 0 <= #[trigger] origin[w] < i && patch_target(
                                lints@[origin[w]],
                            ) == Some(out@[w].path@),
                        patch_target(lints@[i as int]) == Some(p@),
                        forall|b: int| 0 <= b < q ==> out@[b].path@ != p@,
                    decreases out@.len() - q,
                {
                    if text_equals(out[q].path.as_str(), p.as_str()) {
                        let ghost a = origin[q as int];
                        assert(patch_target(lints@[a]) == Some(p@));
                        assert(patch_target(lints@[i as int]) == Some(p@));
                        return Err(PatchConflict { path: p.clone() });
                    }
                    q = q + 1;
                }
                let patch = Patch { path: p.clone(), replacement: t.clone() };
                let ghost old_origin = origin;
                let ghost old_out = out@;
                proof {
                    assert(patches_view(out@.push(patch)) =~= patches_view(out@).push((p@, t@)));
                }
                out.push(patch);
                proof {
                    origin = origin.push(i as int);
                    assert forall|a: int, b: int|
                        0 <= a < b < i + 1 && #[trigger] patch_target(lints@.take(i + 1)[a]) is Some
                            implies patch_target(lints@.take(i + 1)[a]) != #[trigger] patch_target(
                        lints@.take(i + 1)[b],
                    ) by {
                        if b == i {
                            assert(lints@.take(i + 1)[a] == lints@[a]);
                            assert(patch_target(lints@[a]) is Some);
                            let w = choose|w: int| 0 <= w < old_out.len() && #[trigger] old_origin[w] == a;
                            assert(old_out[w].path@ != p@);
                        } else {
                            assert(lints@.take(i as int)[a] == lints@[a]);
                            assert(lints@.take(i as int)[b] == lints@[b]);
                        }
                    }
                    assert forall|a: int|
                        0 <= a < i + 1 && #[trigger] patch_target(lints@[a]) is Some implies exists|
                            w: int,
                        | 0 <= w < out@.len() && origin[w] == a by {
                        if a == i {
                            assert(origin[out@.len() - 1] == a);
                        } else {
                            let w = choose|w: int| 0 <= w < old_out.len() && #[trigger] old_origin[w] == a;
                            assert(origin[w] == a);
                        }
                    }
                }
            },
            _ => {
                proof {
                    assert forall|a: int, b: int|
                        0 <= a < b < i + 1 && #[trigger] patch_target(lints@.take(i + 1)[a]) is Some
                            implies patch_target(lints@.take(i + 1)[a]) != #[trigger] patch_target(
                        lints@.take(i + 1)[b],
                    ) by {
                        if b < i {
                            assert(lints@.take(i as int)[a] == lints@[a]);
                            assert(lints@.take(i as int)[b] == lints@[b]);
                        }
                    }
                }
            },
        }
        i = i + 1;
    }
    proof {
        assert(lints@.take(lints.len() as int) =~= lints@);
    }
    Ok(out)
}

/// `v` is sorted strictly by text, so it has no duplicates.
pub open spec fn strictly_sorted(v: Seq<Seq<char>>) -> bool {
    forall|i: int, j: int| 0 <= i < j < v.len() ==> text_lt(v[i], v[j])
}

/// The files to lint, sorted by their text with duplicates removed, so that
/// every linter sees them in one order.
pub fn sort_and_dedup_paths(files: &Vec<AbsPath>) -> (r: Vec<AbsPath>)
    ensures
        strictly_sorted(paths_view(r@)),
        forall|p: Seq<char>| paths_view(files@).contains(p) <==> paths_view(r@).contains(p),
{
    let ghost fs = paths_view(files@);
    let mut out: Vec<AbsPath> = Vec::new();
    let mut n: usize = 0;
    while n < files.len()
        invariant
            fs == paths_view(files@),
            n <= files.len(),
            strictly_sorted(paths_view(out@)),
            forall|p: Seq<char>| fs.take(n as int).contains(p) <==> paths_view(out@).contains(p),
        decreases files.len() - n,
    {
        let ghost os = paths_view(out@);
        let mut p: usize = 0;
        while p < out.len() && out[p].compare(&files[n]) < 0
            invariant
                fs == paths_view(files@),
                n < files.len(),
                os == paths_view(out@),
                p <= out@.len(),
                forall|i: int| 0 <= i < p ==> text_lt(os[i], fs[n as int]),
            decreases out@.len() - p,
        {
            p = p + 1;
        }
        let c: i8 = if p < out.len() {
            out[p].compare(&files[n])
        } else {
            1
        };
        proof {
            assert(fs.take(n + 1) =~= fs.take(n as int).push(fs[n as int]));
            lemma_text_cmp_antisym(fs[n as int], fs[n as int]);
        }
        if p < out.len() && c == 0 {
            proof {
                lemma_text_cmp_antisym(os[p as int], fs[n as int]);
                assert forall|q: Seq<char>| fs.take(n + 1).contains(q) <==> os.contains(q) by {
                    if q == fs[n as int] {
                        assert(os[p as int] == q);
                    }
                    if fs.take(n + 1).contains(q) && q != fs[n as int] {
                        let b = choose|b: int| 0 <= b < n + 1 && #[trigger] fs.take(n + 1)[b] == q;
                        assert(fs.take(n as int)[b] == q);
                        assert(fs.take(n as int).contains(q));
                    }
                }
            }
        } else {
            let x = files[n].clone();
            out.insert(p, x);
            proof {
                let ns = paths_view(out@);
                assert(ns =~= os.insert(p as int, fs[n as int]));
                if p < os.len() {
                    lemma_text_cmp_antisym(os[p as int], fs[n as int]);
                }
                assert forall|i: int, j: int| 0 <= i < j < ns.len() implies text_lt(ns[i], ns[j]) by {
                    if j < p {
                    } else if j == p {
                    } else if i < p {
                        lemma_text_lt_trans(os[i], fs[n as int], os[p as int]);
                        if j - 1 > p {
                            lemma_text_lt_trans(os[i], os[p as int], os[j - 1]);
                        }
                    } else if i == p {
                        if j - 1 > p {
                            lemma_text_lt_trans(fs[n as int], os[p as int], os[j - 1]);
                        }
                    } else {
                    }
                }
                assert forall|q: Seq<char>| fs.take(n + 1).contains(q) <==> ns.contains(q) by {
                    if fs.take(n + 1).contains(q) {
                        if q == fs[n as int] {
                            assert(ns[p as int] == q);
                        } else {
                            let a = choose|a: int| 0 <= a < n + 1 && #[trigger] fs.take(n + 1)[a] == q;
                            assert(fs.take(n as int)[a] == q);
                            assert(fs.take(n as int).contains(q));
                            assert(os.contains(q));
                            let b = choose|b: int| 0 <= b < os.len() && os[b] == q;
                            if b < p {
                                assert(ns[b] == q);
                            } else {
                                assert(ns[b + 1] == q);
                            }
                        }
                    }
                    if ns.contains(q) {
                        let b = choose|b: int| 0 <= b < ns.len() && ns[b] == q;
                        if b < p {
                            assert(os[b] == q);
                            assert(os.contains(q));
                        } else if b > p {
                            assert(os[b - 1] == q);
                            assert(os.contains(q));
                        } else {
                            assert(fs.take(n + 1)[n as int] == q);
                        }
                    }
                }
            }
        }
        n = n + 1;
    }
    proof {
        assert(fs.take(files.len() as int) =~= fs);
    }
    out
}

/// The paths a person named, each as resolved on disk (`resolved[i]` for
/// `paths[i]`, none where nothing exists there); fails on the first that
/// was not found.
pub fn get_paths_from_input(paths: &Vec<String>, resolved: Vec<Option<AbsPath>>) -> (r: Result<
    Vec<AbsPath>,
    String,
>)
    requires
        paths@.len() == resolved@.len(),
    ensures
        r is Ok <==> forall|i: int| 0 <= i < resolved@.len() ==> #[trigger] resolved@[i] is Some,
        r matches Ok(v) ==> v@.len() == resolved@.len() && forall|i: int|
            0 <= i < v@.len() ==> #[trigger] v@[i]@ == resolved@[i].unwrap()@,
        r matches Err(msg) ==> exists|i: int|
            0 <= i < paths@.len() && #[trigger] resolved@[i] is None && msg@
                == "Failed to find provided file: '"@ + paths@[i]@ + "'"@,
{
    let mut out: Vec<AbsPath> = Vec::new();
    let mut i: usize = 0;
    while i < resolved.len()
        invariant
            paths@.len() == resolved@.len(),
            i <= resolved.len(),
            out@.len() == i,
            forall|j: int| 0 <= j < i ==> #[trigger] resolved@[j] is Some,
            forall|j: int| 0 <= j < i ==> #[trigger] out@[j]@ == resolved@[j].unwrap()@,
        decreases resolved.len() - i,
    {
        match &resolved[i] {
            Some(p) => {
                out.push(p.clone());
            },
            None => {
                let mut msg = String::from_str("Failed to find provided file: '");
                msg.append(paths[i].as_str());
                msg.append("'");
                assert(resolved@[i as int] is None);
                return Err(msg);
            },
        }
        i = i + 1;
    }
    Ok(out)
}

} // verus!
