//! The sending side's import of files into the blob store: how each
//! import's progress events drive its display, the order in which imported
//! names enter the collection, and the total size of what was imported.

use vstd::prelude::*;

verus! {

/// A progress event of a single file's import, with the tag of a finished
/// import (`T`) and the cause of a failed one (`E`).
pub enum AddEvent<T, E> {
    /// The file's size became known.
    Size(u64),
    /// Copying reached this offset.
    CopyProgress(u64),
    /// Computing the outboard reached this offset.
    OutboardProgress(u64),
    /// Copying is done; computing the outboard begins.
    CopyDone,
    /// The import failed.
    Error(E),
    /// The import finished with this tag.
    Done(T),
}

/// What the import's display does next.
pub enum ImportStep<T, E> {
    /// Set the bar's length.
    SetLength(u64),
    /// Move the bar to this position.
    SetPosition(u64),
    /// Show that the outboard is being computed, and move the bar back to 0.
    ComputingOutboard,
    /// Clear the bar; the import failed with this cause.
    Failed(E),
    /// Clear the bar; the import finished with this tag.
    Finished(T),
}

/// Takes one import event: records the file's size when it is reported,
/// and says what the display does next.
pub fn import_item_step<T, E>(event: AddEvent<T, E>, item_size: &mut u64) -> (step: ImportStep<T, E>)
    ensures
        match event {
            AddEvent::Size(size) => *final(item_size) == size && step == ImportStep::<T, E>::SetLength(size),
            AddEvent::CopyProgress(offset) => *final(item_size) == *old(item_size) && step
                == ImportStep::<T, E>::SetPosition(offset),
            AddEvent::OutboardProgress(offset) => *final(item_size) == *old(item_size) && step
                == ImportStep::<T, E>::SetPosition(offset),
            AddEvent::CopyDone => *final(item_size) == *old(item_size) && step
                == ImportStep::<T, E>::ComputingOutboard,
            AddEvent::Error(cause) => *final(item_size) == *old(item_size) && step
                == ImportStep::<T, E>::Failed(cause),
            AddEvent::Done(tag) => *final(item_size) == *old(item_size) && step
                == ImportStep::<T, E>::Finished(tag),
        },
{
    match event {
        AddEvent::Size(size) => {
            *item_size = size;
            ImportStep::SetLength(size)
        },
        AddEvent::CopyProgress(offset) => ImportStep::SetPosition(offset),
        AddEvent::OutboardProgress(offset) => ImportStep::SetPosition(offset),
        AddEvent::CopyDone => ImportStep::ComputingOutboard,
        AddEvent::Error(cause) => ImportStep::Failed(cause),
        AddEvent::Done(tag) => ImportStep::Finished(tag),
    }
}

/// Whether name `a` sorts strictly before name `b`: text order, character
/// by character by code point, a proper prefix first. This is the order of
/// Rust's `String` comparison.
pub open spec fn name_before(a: Seq<char>, b: Seq<char>) -> bool
    decreases a.len(),
{
    if b.len() == 0 {
        false
    } else if a.len() == 0 {
        true
    } else if (a[0] as int) < (b[0] as int) {
        true
    } else if a[0] == b[0] {
        name_before(a.drop_first(), b.drop_first())
    } else {
        false
    }
}

/// No name sorts before itself.
pub proof fn lemma_name_before_irreflexive(a: Seq<char>)
    ensures
        !name_before(a, a),
    decreases a.len(),
{
    if a.len() > 0 {
        lemma_name_before_irreflexive(a.drop_first());
    }
}

/// Of two different names, one sorts before the other, and never both.
pub proof fn lemma_name_before_total(a: Seq<char>, b: Seq<char>)
    ensures
        a != b ==> (name_before(a, b) || name_before(b, a)),
        !(name_before(a, b) && name_before(b, a)),
    decreases a.len(),
{
    if a.len() > 0 && b.len() > 0 {
        lemma_name_before_total(a.drop_first(), b.drop_first());
        if a[0] == b[0] && a != b {
            assert(a.drop_first() != b.drop_first()) by {
                if a.drop_first() == b.drop_first() {
                    assert(a =~= seq![a[0]] + a.drop_first());
                    assert(b =~= seq![b[0]] + b.drop_first());
                }
            }
        }
        if a[0] != b[0] {
            assert((a[0] as int) != (b[0] as int));
        }
    } else if a.len() == 0 && b.len() == 0 {
        assert(a =~= b);
    }
}

/// Text order is transitive.
pub proof fn lemma_name_before_transitive(a: Seq<char>, b: Seq<char>, c: Seq<char>)
    requires
        name_before(a, b),
        name_before(b, c),
    ensures
        name_before(a, c),
    decreases a.len(),
{
    if a.len() > 0 && b.len() > 0 && c.len() > 0 {
        if a[0] == b[0] && b[0] == c[0] {
            lemma_name_before_transitive(a.drop_first(), b.drop_first(), c.drop_first());
        }
    }
}

/// Entry `i` (name `a`) comes before entry `j` (name `b`) when its name
/// sorts before, or the names are equal and it came first: the order of a
/// stable sort by name.
pub open spec fn entry_before(a: Seq<char>, i: int, b: Seq<char>, j: int) -> bool {
    name_before(a, b) || (a == b && i < j)
}

/// Whether `a` sorts strictly before `b`.
pub fn str_before(a: &str, b: &str) -> (r: bool)
    ensures
        r == name_before(a@, b@),
{
    let la = a.unicode_len();
    let lb = b.unicode_len();
    let mut i: usize = 0;
    assert(a@.skip(0) =~= a@);
    assert(b@.skip(0) =~= b@);
    while i < la && i < lb
        invariant
            la == a@.len(),
            lb == b@.len(),
            0 <= i <= la,
            i <= lb,
            name_before(a@, b@) == name_before(a@.skip(i as int), b@.skip(i as int)),
        decreases la - i,
    {
        let ca = a.get_char(i);
        let cb = b.get_char(i);
        assert(a@.skip(i as int)[0] == ca);
        assert(b@.skip(i as int)[0] == cb);
        if (ca as u32) < (cb as u32) {
            return true;
        }
        if ca != cb {
            return false;
        }
        assert(a@.skip(i as int).drop_first() =~= a@.skip(i + 1));
        assert(b@.skip(i as int).drop_first() =~= b@.skip(i + 1));
        i = i + 1;
    }
    la < lb
}

/// Whether `order` lists positions into `names` in stable name order.
pub open spec fn sorted_by_name(names: Seq<Seq<char>>, order: Seq<usize>) -> bool {
    forall|i: int, j: int|
        0 <= i < j < order.len() ==> entry_before(
            names[order[i] as int],
            order[i] as int,
            names[order[j] as int],
            order[j] as int,
        )
}

/// The positions of `names` in the order in which the entries enter the
/// collection: sorted by name, entries with equal names in the order given
/// (a stable sort).
///
/// The result is a permutation of `0..names.len()`: each position is in
/// range, and the strict order forbids repeats.
pub fn order_by_name(names: &Vec<String>) -> (order: Vec<usize>)
    ensures
        order.len() == names.len(),
        forall|i: int| 0 <= i < order.len() ==> order[i] < names.len(),
        sorted_by_name(names@.map_values(|s: String| s@), order@),
{
    let ghost ns = names@.map_values(|s: String| s@);
    let mut order: Vec<usize> = Vec::new();
    let mut k: usize = 0;
    while k < names.len()
        invariant
            ns == names@.map_values(|s: String| s@),
            0 <= k <= names.len(),
            order.len() == k,
            forall|i: int| 0 <= i < order.len() ==> order[i] < k,
            sorted_by_name(ns, order@),
        decreases names.len() - k,
    {
        let mut pos: usize = order.len();
        while pos > 0 && str_before(names[k].as_str(), names[order[pos - 1]].as_str())
            invariant
                ns == names@.map_values(|s: String| s@),
                0 <= pos <= order.len(),
                order.len() == k,
                k < names.len(),
                forall|i: int| 0 <= i < order.len() ==> order[i] < k,
                sorted_by_name(ns, order@),
                forall|i: int| pos <= i < order.len() ==> name_before(ns[k as int], ns[order[i] as int]),
            decreases pos,
        {
            assert(ns[k as int] == names@[k as int]@);
            pos = pos - 1;
        }
        proof {
            assert(ns[k as int] == names@[k as int]@);
            if pos > 0 {
                let x = order[pos - 1] as int;
                assert(ns[x] == names@[x]@);
                // the new entry does not sort before the one at pos - 1
                lemma_name_before_total(ns[k as int], ns[x]);
            }
        }
        let ghost old_order = order@;
        order.insert(pos, k);
        proof {
            assert forall|i: int, j: int| 0 <= i < j < order.len() implies entry_before(
                ns[order[i] as int],
                order[i] as int,
                ns[order[j] as int],
                order[j] as int,
            ) by {
                lemma_insert_keeps_order(ns, old_order, pos as int, k, i, j);
            }
        }
        k = k + 1;
    }
    order
}

/// Inserting entry `k` (greater than every listed position) at `pos`, after
/// every entry whose name does not sort after it and before every entry
/// whose name does, keeps the list sorted.
proof fn lemma_insert_keeps_order(
    ns: Seq<Seq<char>>,
    order: Seq<usize>,
    pos: int,
    k: usize,
    i: int,
    j: int,
)
    requires
        0 <= pos <= order.len(),
        0 <= k < ns.len(),
        forall|t: int| 0 <= t < order.len() ==> order[t] < k,
        sorted_by_name(ns, order),
        forall|t: int| pos <= t < order.len() ==> name_before(ns[k as int], ns[order[t] as int]),
        pos > 0 ==> !name_before(ns[k as int], ns[order[pos - 1] as int]),
        0 <= i < j < order.len() + 1,
    ensures
        ({
            let o = order.insert(pos, k);
            entry_before(ns[o[i] as int], o[i] as int, ns[o[j] as int], o[j] as int)
        }),
{
    let o = order.insert(pos, k);
    let nk = ns[k as int];
    if i < pos && j < pos {
        assert(o[i] == order[i] && o[j] == order[j]);
    } else if i > pos && j > pos {
        assert(o[i] == order[i - 1] && o[j] == order[j - 1]);
    } else if i < pos && j == pos {
        // order[i] sorts no later than order[pos - 1], which does not sort after k
        let x = order[i] as int;
        let y = order[pos - 1] as int;
        assert(o[i] == order[i]);
        assert(o[j] == k);
        lemma_name_before_total(nk, ns[y]);
        lemma_name_before_total(ns[x], nk);
        if i < pos - 1 {
            assert(entry_before(ns[x], x, ns[y], y));
            if name_before(ns[x], ns[y]) {
                if name_before(nk, ns[x]) {
                    lemma_name_before_transitive(nk, ns[x], ns[y]);
                }
                if ns[y] != nk {
                    lemma_name_before_transitive(ns[x], ns[y], nk);
                }
            }
        }
    } else if i < pos && j > pos {
        let x = order[i] as int;
        let z = order[j - 1] as int;
        assert(o[i] == order[i]);
        assert(o[j] == order[j - 1]);
        assert(entry_before(ns[x], x, ns[z], z));
    } else {
        // i == pos < j
        let z = order[j - 1] as int;
        assert(o[i] == k);
        assert(o[j] == order[j - 1]);
        assert(name_before(nk, ns[z]));
    }
}

/// The sum of the sizes.
pub open spec fn sum_sizes(sizes: Seq<u64>) -> int
    decreases sizes.len(),
{
    if sizes.len() == 0 {
        0
    } else {
        sum_sizes(sizes.drop_last()) + sizes.last()
    }
}

/// Sizes are never negative, so a prefix sums to no more than the whole.
pub proof fn lemma_sum_prefix(sizes: Seq<u64>, i: int)
    requires
        0 <= i <= sizes.len(),
    ensures
        0 <= sum_sizes(sizes.take(i)) <= sum_sizes(sizes),
    decreases sizes.len() - i,
{
    if i < sizes.len() {
        lemma_sum_prefix(sizes, i + 1);
        assert(sizes.take(i + 1).drop_last() =~= sizes.take(i));
        lemma_sum_nonnegative(sizes.take(i));
    } else {
        assert(sizes.take(i) =~= sizes);
        lemma_sum_nonnegative(sizes);
    }
}

proof fn lemma_sum_nonnegative(sizes: Seq<u64>)
    ensures
        sum_sizes(sizes) >= 0,
    decreases sizes.len(),
{
    if sizes.len() > 0 {
        lemma_sum_nonnegative(sizes.drop_last());
    }
}

/// The total size of the imported files, or `None` when it does not fit
/// in a `u64`.
pub fn total_size(sizes: &Vec<u64>) -> (r: Option<u64>)
    ensures
        match r {
            Some(total) => total == sum_sizes(sizes@),
            None => sum_sizes(sizes@) > u64::MAX,
        },
{
    let mut total: u64 = 0;
    let mut i: usize = 0;
    while i < sizes.len()
        invariant
            0 <= i <= sizes.len(),
            total == sum_sizes(sizes@.take(i as int)),
        decreases sizes.len() - i,
    {
        assert(sizes@.take(i + 1).drop_last() =~= sizes@.take(i as int));
        assert(sizes@.take(i + 1).last() == sizes@[i as int]);
        match total.checked_add(sizes[i]) {
            Some(t) => {
                total = t;
            },
            None => {
                proof {
                    lemma_sum_prefix(sizes@, i + 1);
                }
                return None;
            },
        }
        i = i + 1;
    }
    assert(sizes@.take(sizes.len() as int) =~= sizes@);
    Some(total)
}

/// Law: sizes add up. The sizes of two runs, one after the other, sum to
/// the sum of each run, so no size is ever left out or counted twice.
pub proof fn law_sum_sizes_additive(s: Seq<u64>, t: Seq<u64>)
    ensures
        sum_sizes(s + t) == sum_sizes(s) + sum_sizes(t),
    decreases t.len(),
{
    if t.len() == 0 {
        assert(s + t =~= s);
    } else {
        law_sum_sizes_additive(s, t.drop_last());
        assert((s + t).drop_last() =~= s + t.drop_last());
        assert((s + t).last() == t.last());
    }
}

/// Law: a single size sums to itself, and no size sums to 0.
pub proof fn law_sum_sizes_single(x: u64)
    ensures
        sum_sizes(seq![x]) == x,
        sum_sizes(Seq::<u64>::empty()) == 0,
{
    assert(sum_sizes(Seq::<u64>::empty()) == 0);
    assert(seq![x].drop_last() =~= Seq::<u64>::empty());
    assert(seq![x].last() == x);
}

/// Law: names whose first characters differ are ordered by the code points
/// of those characters, as Rust's `String` comparison orders them (so every
/// upper-case ASCII letter sorts before every lower-case one).
pub proof fn law_name_order_by_code_point(a: Seq<char>, b: Seq<char>)
    requires
        a.len() > 0,
        b.len() > 0,
        a[0] != b[0],
    ensures
        name_before(a, b) <==> (a[0] as int) < (b[0] as int),
{
}

/// Law: a common start does not change the order of two names.
pub proof fn law_name_order_common_prefix(p: Seq<char>, a: Seq<char>, b: Seq<char>)
    ensures
        name_before(p + a, p + b) == name_before(a, b),
    decreases p.len(),
{
    if p.len() > 0 {
        let q = p.drop_first();
        law_name_order_common_prefix(q, a, b);
        assert((p + a).drop_first() =~= q + a);
        assert((p + b).drop_first() =~= q + b);
        assert((p + a)[0] == p[0]);
        assert((p + b)[0] == p[0]);
    } else {
        assert(p + a =~= a);
        assert(p + b =~= b);
    }
}

/// Law: a name sorts before every longer name that it begins, and after
/// none.
pub proof fn law_name_prefix_first(a: Seq<char>, b: Seq<char>)
    requires
        a.len() < b.len(),
        b.take(a.len() as int) =~= a,
    ensures
        name_before(a, b),
        !name_before(b, a),
    decreases a.len(),
{
    if a.len() > 0 {
        assert(b[0] == a[0]);
        assert(b.drop_first().take(a.drop_first().len() as int) =~= a.drop_first());
        law_name_prefix_first(a.drop_first(), b.drop_first());
    }
}

} // verus!

verus! {

/// `num_cpus::get`: the number of logical CPUs available, which the
/// documentation says is always at least 1.
#[verifier::external_body]
fn cpu_count() -> (n: usize)
    ensures
        n >= 1,
{
    num_cpus::get()
}

/// How many files are imported at once: the number asked for, or else one
/// per available CPU.
pub fn import_parallelism(jobs: Option<usize>) -> (n: usize)
    ensures
        jobs matches Some(j) ==> n == j,
        jobs is None ==> n >= 1,
{
    match jobs {
        Some(j) => j,
        None => cpu_count(),
    }
}

} // verus!

verus! {

/// Whether position `p` appears in `order`.
pub open spec fn lists(order: Seq<usize>, p: int) -> bool {
    exists|i: int| 0 <= i < order.len() && order[i] == p
}

/// Law: the collection order lists every imported entry exactly once: the
/// positions it gives are all different, and every position appears.
pub proof fn law_order_is_permutation(names: Seq<Seq<char>>, order: Seq<usize>)
    requires
        order.len() == names.len(),
        forall|i: int| 0 <= i < order.len() ==> order[i] < names.len(),
        sorted_by_name(names, order),
    ensures
        forall|i: int, j: int| 0 <= i < j < order.len() ==> order[i] != order[j],
        forall|p: int| 0 <= p < names.len() ==> #[trigger] lists(order, p),
{
    assert forall|i: int, j: int| 0 <= i < j < order.len() implies order[i] != order[j] by {
        if order[i] == order[j] {
            lemma_name_before_irreflexive(names[order[i] as int]);
            assert(entry_before(
                names[order[i] as int],
                order[i] as int,
                names[order[j] as int],
                order[j] as int,
            ));
        }
    }
    let s = order.map_values(|x: usize| x as int);
    assert(s.no_duplicates()) by {
        assert forall|i: int, j: int| 0 <= i < s.len() && 0 <= j < s.len() && i != j implies s[i]
            != s[j] by {
            if i < j {
                assert(order[i] != order[j]);
            } else {
                assert(order[j] != order[i]);
            }
        }
    }
    s.unique_seq_to_set();
    let range = vstd::set_lib::set_int_range(0, names.len() as int);
    vstd::set_lib::lemma_int_range(0, names.len() as int);
    assert(s.to_set().subset_of(range)) by {
        assert forall|x: int| s.to_set().contains(x) implies range.contains(x) by {
            let i = choose|i: int| 0 <= i < s.len() && s[i] == x;
            assert(order[i] < names.len());
        }
    }
    vstd::seq_lib::seq_to_set_is_finite(s);
    vstd::set_lib::lemma_subset_equality(s.to_set(), range);
    assert forall|p: int| 0 <= p < names.len() implies #[trigger] lists(order, p) by {
        assert(range.contains(p));
        assert(s.to_set().contains(p));
        let i = choose|i: int| 0 <= i < s.len() && s[i] == p;
        assert(order[i] == p);
    }
}

} // verus!
