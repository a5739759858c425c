use vstd::prelude::*;
use crate::text;
use std::collections::BTreeSet;
use vstd::std_specs::btree::spec_btree_keys_iter;
use vstd::std_specs::iter::IteratorSpec;
use vstd::std_specs::cmp::OrdSpec;

verus! {

/// Strictly increasing: sorted, and nothing twice.
pub open spec fn strictly_increasing(s: Seq<i32>) -> bool {
    forall|i: int, j: int| 0 <= i < j < s.len() ==> s[i] < s[j]
}

/// A set of process ids, handed out in increasing order.
#[derive(Debug)]
pub struct IdSet {
    items: BTreeSet<i32>,
}

impl View for IdSet {
    type V = Set<i32>;

    closed spec fn view(&self) -> Set<i32> {
        self.items@
    }
}

impl IdSet {
    /// The empty set.
    pub fn new() -> (r: IdSet)
        ensures
            r@ == Set::<i32>::empty(),
    {
        IdSet { items: BTreeSet::new() }
    }

    /// Whether `x` is in the set.
    pub fn contains(&self, x: i32) -> (r: bool)
        ensures
            r == self@.contains(x),
    {
        broadcast use vstd::std_specs::btree::group_btree_axioms, vstd::laws_cmp::group_laws_cmp;

        self.items.contains(&x)
    }

    /// Adds `x`; returns whether it was new.
    pub fn insert(&mut self, x: i32) -> (r: bool)
        ensures
            r == !old(self)@.contains(x),
            final(self)@ == old(self)@.insert(x),
    {
        broadcast use vstd::std_specs::btree::group_btree_axioms, vstd::laws_cmp::group_laws_cmp;

        self.items.insert(x)
    }

    /// The ids in increasing order.
    pub fn to_vec(&self) -> (v: Vec<i32>)
        ensures
            strictly_increasing(v@),
            v@.to_set() == self@,
    {
        broadcast use vstd::std_specs::btree::group_btree_axioms, vstd::laws_cmp::group_laws_cmp;

        let ghost r = spec_btree_keys_iter(&self.items).remaining();
        let mut v: Vec<i32> = Vec::new();
        for x in it: self.items.iter()
            invariant
                it.seq() == r,
                v@.len() == it.index(),
                it.index() <= r.len(),
                forall|k: int| 0 <= k < v@.len() ==> v@[k] == *r[k],
        {
            v.push(*x);
        }
        assert(v@ =~= r.unref());
        assert forall|i: int, j: int| 0 <= i < j < v@.len() implies v@[i] < v@[j] by {
            assert(OrdSpec::cmp_spec(&r[i], &r[j]) is Less);
        }
        v
    }

    /// Adds all ids of `other`; returns, in increasing order, those that were new.
    pub fn insert_all(&mut self, other: &IdSet) -> (r: Vec<i32>)
        ensures
            final(self)@ == old(self)@.union(other@),
            r@.to_set() == other@.difference(old(self)@),
            strictly_increasing(r@),
    {
        let v = other.to_vec();
        let ghost start = self@;
        let mut r: Vec<i32> = Vec::new();
        let mut i: usize = 0;
        while i < v.len()
            invariant
                strictly_increasing(v@),
                i <= v@.len(),
                self@ == start.union(v@.subrange(0, i as int).to_set()),
                r@.to_set() == v@.subrange(0, i as int).to_set().difference(start),
                strictly_increasing(r@),
                forall|k: int, j: int|
                    0 <= k < r@.len() && i <= j < v@.len() ==> #[trigger] r@[k] < #[trigger] v@[j],
            decreases v@.len() - i,
        {
            let x = v[i];
            let ghost before = self@;
            let ghost prev_r = r@;
            let fresh = self.insert(x);
            if fresh {
                r.push(x);
            }
            proof {
                let a = v@.subrange(0, i as int);
                let b = v@.subrange(0, i + 1);
                assert(b == a.push(x));
                assert(b.to_set() =~= a.to_set().insert(x)) by {
                    assert forall|y: i32| #[trigger] b.to_set().contains(y) <==> a.to_set().insert(x).contains(y) by {
                        if b.contains(y) {
                            let k = choose|k: int| 0 <= k < b.len() && b[k] == y;
                            if k < a.len() {
                                assert(a[k] == y);
                            }
                        }
                        if a.contains(y) {
                            let k = choose|k: int| 0 <= k < a.len() && a[k] == y;
                            assert(b[k] == y);
                        }
                        if y == x {
                            assert(b[i as int] == x);
                        }
                    }
                }
                assert(self@ =~= start.union(b.to_set()));
                // x is larger than everything taken before.
                assert forall|k: int| 0 <= k < prev_r.len() implies prev_r[k] < x by {
                    assert(prev_r[k] < v@[i as int]);
                }
                if fresh {
                    assert(r@ == prev_r.push(x));
                    assert forall|k: int, j: int|
                        0 <= k < r@.len() && i + 1 <= j < v@.len() implies #[trigger] r@[k] < #[trigger] v@[j] by {
                        assert(v@[i as int] < v@[j]);
                        if k < prev_r.len() {
                            assert(prev_r[k] < v@[i as int]);
                        }
                    }
                    assert(r@.to_set() =~= b.to_set().difference(start)) by {
                        assert forall|y: i32| #[trigger] r@.to_set().contains(y) <==> b.to_set().difference(start).contains(y) by {
                            if r@.contains(y) {
                                let k = choose|k: int| 0 <= k < r@.len() && r@[k] == y;
                                if k < prev_r.len() {
                                    assert(prev_r.to_set().contains(y));
                                }
                            }
                            if y != x && b.to_set().difference(start).contains(y) {
                                assert(a.to_set().difference(start).contains(y));
                                assert(prev_r.to_set().contains(y));
                                let k = choose|k: int| 0 <= k < prev_r.len() && prev_r[k] == y;
                                assert(r@[k] == y);
                            }
                            if y == x && b.to_set().difference(start).contains(y) {
                                assert(r@[prev_r.len() as int] == x);
                            }
                        }
                    }
                } else {
                    assert(before.contains(x));
                    assert(r@.to_set() =~= b.to_set().difference(start)) by {
                        assert forall|y: i32| #[trigger] r@.to_set().contains(y) <==> b.to_set().difference(start).contains(y) by {
                            if y == x {
                                if start.contains(x) {
                                } else {
                                    assert(a.contains(x));
                                    let j = choose|j: int| 0 <= j < a.len() && a[j] == x;
                                    assert(v@[j] < v@[i as int]);
                                }
                            }
                        }
                    }
                }
            }
            i = i + 1;
        }
        assert(v@.subrange(0, v@.len() as int) == v@);
        r
    }

    /// The number of ids.
    pub fn len(&self) -> (n: usize)
        ensures
            n == self@.len(),
    {
        broadcast use vstd::std_specs::btree::group_btree_axioms, vstd::laws_cmp::group_laws_cmp;

        self.items.len()
    }
}


/// Some `(child, parent)` pair of `links` records `parent` as the parent of `child`.
pub open spec fn has_link(links: Seq<(i32, i32)>, child: i32, parent: i32) -> bool {
    exists|k: int| 0 <= k < links.len() && links[k] == (child, parent)
}

/// `path` goes from a process to a child of it, to a child of that, and so on.
pub open spec fn is_chain(links: Seq<(i32, i32)>, path: Seq<i32>) -> bool {
    &&& path.len() >= 2
    &&& forall|i: int| 0 <= i < path.len() - 1 ==> has_link(links, #[trigger] path[i + 1], path[i])
}

/// `pid` descends from `root` through one or more parent links.
pub open spec fn is_descendant(links: Seq<(i32, i32)>, root: i32, pid: i32) -> bool {
    exists|path: Seq<i32>| #[trigger] is_chain(links, path) && path[0] == root && path.last() == pid
}

/// The number of `false` entries.
pub open spec fn count_false(s: Seq<bool>) -> nat
    decreases s.len(),
{
    if s.len() == 0 {
        0
    } else {
        count_false(s.drop_last()) + if s.last() {
            0nat
        } else {
            1nat
        }
    }
}

proof fn lemma_count_false_update(s: Seq<bool>, k: int)
    requires
        0 <= k < s.len(),
        !s[k],
    ensures
        count_false(s.update(k, true)) + 1 == count_false(s),
    decreases s.len(),
{
    if k == s.len() - 1 {
        assert(s.update(k, true).drop_last() == s.drop_last());
    } else {
        lemma_count_false_update(s.drop_last(), k);
        assert(s.update(k, true).drop_last() == s.drop_last().update(k, true));
    }
}

proof fn lemma_closed_contains_chain(links: Seq<(i32, i32)>, root: i32, out: Set<i32>, path: Seq<i32>, i: int)
    requires
        forall|k: int|
            0 <= k < links.len() && (links[k].1 == root || out.contains(links[k].1)) ==> out.contains(
                #[trigger] links[k].0,
            ),
        is_chain(links, path),
        path[0] == root,
        1 <= i < path.len(),
    ensures
        out.contains(path[i]),
    decreases i,
{
    if i > 1 {
        lemma_closed_contains_chain(links, root, out, path, i - 1);
    }
    let j = i - 1;
    assert(has_link(links, path[j + 1], path[j]));
    assert(path[j + 1] == path[i]);
    let k = choose|k: int| 0 <= k < links.len() && links[k] == (path[i], path[i - 1]);
    assert(links[k].0 == path[i]);
}

/// The processes that descend from `root` through the `(pid, parent pid)` pairs
/// `links`; none when `root` is not a valid pid.
pub fn discover_descendants(root: i32, links: &Vec<(i32, i32)>) -> (r: IdSet)
    ensures
        r@ == (if root <= 0 {
            Set::<i32>::empty()
        } else {
            Set::new(|p: i32| is_descendant(links@, root, p))
        }),
{
    let mut out = IdSet::new();
    if root <= 0 {
        return out;
    }
    let n = links.len();
    let mut used: Vec<bool> = Vec::new();
    while used.len() < n
        invariant
            used.len() <= n,
            forall|k: int| 0 <= k < used.len() ==> !used@[k],
            count_false(used@) == used.len(),
        decreases n - used.len(),
    {
        let ghost prev = used@;
        used.push(false);
        assert(used@.drop_last() == prev);
    }
    let mut remaining: usize = n;
    loop
        invariant
            n == links@.len(),
            used@.len() == n,
            root > 0,
            remaining == count_false(used@),
            forall|p: i32| #[trigger] out@.contains(p) ==> is_descendant(links@, root, p),
            forall|k: int| 0 <= k < n && #[trigger] used@[k] ==> out@.contains(links@[k].0),
        decreases remaining,
    {
        let ghost start = remaining;
        let mut changed = false;
        let mut k: usize = 0;
        while k < n
            invariant
                n == links@.len(),
                used@.len() == n,
                root > 0,
                k <= n,
                remaining == count_false(used@),
                remaining <= start,
                changed ==> remaining < start,
                forall|p: i32| #[trigger] out@.contains(p) ==> is_descendant(links@, root, p),
                forall|j: int| 0 <= j < n && #[trigger] used@[j] ==> out@.contains(links@[j].0),
                !changed ==> forall|j: int|
                    0 <= j < k && (links@[j].1 == root || out@.contains(links@[j].1))
                        ==> out@.contains(#[trigger] links@[j].0),
            decreases n - k,
        {
            let (child, parent) = links[k];
            if !used[k] && (parent == root || out.contains(parent)) {
                proof {
                    lemma_count_false_update(used@, k as int);
                    assert(has_link(links@, child, parent)) by {
                        assert(links@[k as int] == (child, parent));
                    }
                    if parent == root {
                        let path = seq![root, child];
                        assert(is_chain(links@, path));
                        assert(is_descendant(links@, root, child));
                    } else {
                        let path = choose|path: Seq<i32>|
                            #[trigger] is_chain(links@, path) && path[0] == root && path.last() == parent;
                        let longer = path.push(child);
                        assert forall|i: int| 0 <= i < longer.len() - 1 implies has_link(
                            links@,
                            #[trigger] longer[i + 1],
                            longer[i],
                        ) by {
                            if i < path.len() - 1 {
                                assert(longer[i + 1] == path[i + 1] && longer[i] == path[i]);
                            }
                        }
                        assert(is_chain(links@, longer));
                        assert(is_descendant(links@, root, child));
                    }
                }
                used.set(k, true);
                remaining = remaining - 1;
                changed = true;
                out.insert(child);
            }
            k = k + 1;
        }
        if !changed {
            proof {
                assert forall|p: i32| is_descendant(links@, root, p) implies #[trigger] out@.contains(p) by {
                    let path = choose|path: Seq<i32>|
                        #[trigger] is_chain(links@, path) && path[0] == root && path.last() == p;
                    lemma_closed_contains_chain(links@, root, out@, path, path.len() - 1);
                }
                assert(out@ =~= Set::new(|p: i32| is_descendant(links@, root, p)));
            }
            return out;
        }
    }
}


/// The value of a run of decimal digits.
pub open spec fn digits_value(d: Seq<char>) -> int
    decreases d.len(),
{
    if d.len() == 0 {
        0
    } else {
        digits_value(d.drop_last()) * 10 + (d.last() as int - '0' as int)
    }
}

/// Every character is an ASCII digit.
pub open spec fn all_digits(d: Seq<char>) -> bool {
    forall|i: int| 0 <= i < d.len() ==> text::is_ascii_digit(#[trigger] d[i])
}

/// The `i32` that `s` spells as `str::parse::<i32>` reads it: an optional `+` or
/// `-`, then one or more decimal digits, and a value in the range of `i32`.
pub open spec fn parse_i32_text(s: Seq<char>) -> Option<i32> {
    let neg = s.len() > 0 && s[0] == '-';
    let d = if s.len() > 0 && (s[0] == '-' || s[0] == '+') {
        s.drop_first()
    } else {
        s
    };
    let v = if neg {
        -digits_value(d)
    } else {
        digits_value(d)
    };
    if d.len() == 0 || !all_digits(d) || v < i32::MIN || v > i32::MAX {
        None
    } else {
        Some(v as i32)
    }
}

proof fn lemma_digits_value_grows(d: Seq<char>, j: int, k: int)
    requires
        all_digits(d),
        0 <= j <= k <= d.len(),
    ensures
        0 <= digits_value(d.subrange(0, j)) <= digits_value(d.subrange(0, k)),
    decreases k, j,
{
    if k > j {
        lemma_digits_value_grows(d, j, k - 1);
        assert(d.subrange(0, k).drop_last() == d.subrange(0, k - 1));
        assert(text::is_ascii_digit(d[k - 1]));
    } else if j > 0 {
        lemma_digits_value_grows(d, j - 1, j);
    }
}

proof fn lemma_decimal_value(n: nat)
    ensures
        text::decimal(n).len() > 0,
        all_digits(text::decimal(n)),
        digits_value(text::decimal(n)) == n,
    decreases n,
{
    text::lemma_decimal_digits(n);
    let d = text::decimal(n);
    if n >= 10 {
        lemma_decimal_value(n / 10);
        assert(d.drop_last() == text::decimal(n / 10));
        assert(d.last() == text::digit_char(n % 10));
        lemma_digit_char_value(n % 10);
        assert(n == (n / 10) * 10 + n % 10) by (nonlinear_arith);
        assert(digits_value(d) == digits_value(d.drop_last()) * 10 + (d.last() as int - '0' as int));
        assert(digits_value(d.drop_last()) == n / 10);
    } else {
        lemma_digit_char_value(n);
        assert(d.drop_last() =~= Seq::<char>::empty());
        assert(digits_value(d.drop_last()) == 0);
        assert(digits_value(d) == digits_value(d.drop_last()) * 10 + (d.last() as int - '0' as int));
    }
}

proof fn lemma_digit_char_value(k: nat)
    requires
        k < 10,
    ensures
        text::digit_char(k) as int - '0' as int == k,
{
}

/// Reading back what `to_string` writes gives the same number: `parse_i32`
/// accepts the decimal text of every `i32`, with its `-` when negative, and
/// returns that number; `parse_u32` does the same for every `u32`.
pub proof fn lemma_parse_reads_back(i: i32, n: u32)
    ensures
        parse_i32_text(text::signed_decimal(i as int)) == Some(i),
        parse_u32_text(text::decimal(n as nat)) == Some(n),
{
    lemma_decimal_value(n as nat);
    if i < 0 {
        let m = (-(i as int)) as nat;
        lemma_decimal_value(m);
        let s = text::signed_decimal(i as int);
        assert(s[0] == '-');
        assert(s.drop_first() =~= text::decimal(m));
    } else {
        lemma_decimal_value(i as nat);
        let s = text::signed_decimal(i as int);
        assert(text::is_ascii_digit(s[0]));
    }
    let u = text::decimal(n as nat);
    assert(text::is_ascii_digit(u[0]));
}

/// Reads an `i32` as `str::parse::<i32>` does.
pub fn parse_i32(s: &str) -> (r: Option<i32>)
    ensures
        r == parse_i32_text(s@),
{
    let v = text::chars_of(s);
    let mut start: usize = 0;
    let mut neg = false;
    if v.len() > 0 && (v[0] == '-' || v[0] == '+') {
        neg = v[0] == '-';
        start = 1;
    }
    let ghost d = if v@.len() > 0 && (v@[0] == '-' || v@[0] == '+') {
        v@.drop_first()
    } else {
        v@
    };
    assert(d == v@.subrange(start as int, v@.len() as int));
    if start >= v.len() {
        return None;
    }
    let mut acc: i64 = 0;
    let mut i: usize = start;
    while i < v.len()
        invariant
            v@ == s@,
            start <= i <= v@.len(),
            d == v@.subrange(start as int, v@.len() as int),
            d == (if s@.len() > 0 && (s@[0] == '-' || s@[0] == '+') {
                s@.drop_first()
            } else {
                s@
            }),
            neg == (s@.len() > 0 && s@[0] == '-'),
            forall|k: int| start <= k < i ==> text::is_ascii_digit(#[trigger] v@[k]),
            acc == digits_value(d.subrange(0, i - start)),
            0 <= acc <= 2147483648,
        decreases v@.len() - i,
    {
        let c = v[i];
        if !('0' <= c && c <= '9') {
            assert(!all_digits(d)) by {
                assert(d[i - start] == c);
            }
            assert(parse_i32_text(s@) is None);
            return None;
        }
        let digit: i64 = (c as u32 - '0' as u32) as i64;
        let next = acc * 10 + digit;
        proof {
            assert(d.subrange(0, i + 1 - start).drop_last() == d.subrange(0, i - start));
            assert(d.subrange(0, i + 1 - start).last() == c);
        }
        if next > 2147483648 {
            proof {
                assert(all_digits(d) ==> digits_value(d) > i32::MAX + 1) by {
                    if all_digits(d) {
                        lemma_digits_value_grows(d, i + 1 - start, d.len() as int);
                        assert(d.subrange(0, d.len() as int) == d);
                    }
                }
            }
            assert(parse_i32_text(s@) is None);
            return None;
        }
        acc = next;
        i = i + 1;
    }
    assert(d.subrange(0, d.len() as int) == d);
    assert(all_digits(d));
    if neg {
        Some((-acc) as i32)
    } else if acc > 2147483647 {
        None
    } else {
        Some(acc as i32)
    }
}

/// `s` holds `") "` at position `i`.
pub open spec fn paren_at(s: Seq<char>, i: int) -> bool {
    0 <= i && i + 1 < s.len() && s[i] == ')' && s[i + 1] == ' '
}

/// The position of the last `") "` of `s` (meaningful when there is one).
pub open spec fn last_paren(s: Seq<char>) -> int {
    choose|i: int| #[trigger] paren_at(s, i) && forall|k: int| i < k ==> !#[trigger] paren_at(s, k)
}

/// The `u32` that `s` spells as `str::parse::<u32>` reads it: an optional `+`,
/// then one or more decimal digits, and a value in the range of `u32`.
pub open spec fn parse_u32_text(s: Seq<char>) -> Option<u32> {
    let d = if s.len() > 0 && s[0] == '+' {
        s.drop_first()
    } else {
        s
    };
    if d.len() == 0 || !all_digits(d) || digits_value(d) > u32::MAX {
        None
    } else {
        Some(digits_value(d) as u32)
    }
}

/// Reads a `u32` as `str::parse::<u32>` does.
pub fn parse_u32(s: &str) -> (r: Option<u32>)
    ensures
        r == parse_u32_text(s@),
{
    let v = text::chars_of(s);
    let start: usize = if v.len() > 0 && v[0] == '+' {
        1
    } else {
        0
    };
    let ghost d = if s@.len() > 0 && s@[0] == '+' {
        s@.drop_first()
    } else {
        s@
    };
    assert(d == v@.subrange(start as int, v@.len() as int));
    if start >= v.len() {
        return None;
    }
    let mut acc: u64 = 0;
    let mut i: usize = start;
    while i < v.len()
        invariant
            v@ == s@,
            start <= i <= v@.len(),
            d == v@.subrange(start as int, v@.len() as int),
            d == (if s@.len() > 0 && s@[0] == '+' {
                s@.drop_first()
            } else {
                s@
            }),
            forall|k: int| start <= k < i ==> text::is_ascii_digit(#[trigger] v@[k]),
            acc == digits_value(d.subrange(0, i - start)),
            acc <= 4294967295,
        decreases v@.len() - i,
    {
        let c = v[i];
        if !('0' <= c && c <= '9') {
            assert(!all_digits(d)) by {
                assert(d[i - start] == c);
            }
            assert(parse_u32_text(s@) is None);
            return None;
        }
        let digit: u64 = (c as u32 - '0' as u32) as u64;
        let next = acc * 10 + digit;
        proof {
            assert(d.subrange(0, i + 1 - start).drop_last() == d.subrange(0, i - start));
            assert(d.subrange(0, i + 1 - start).last() == c);
        }
        if next > 4294967295 {
            proof {
                assert(all_digits(d) ==> digits_value(d) > u32::MAX) by {
                    if all_digits(d) {
                        lemma_digits_value_grows(d, i + 1 - start, d.len() as int);
                        assert(d.subrange(0, d.len() as int) == d);
                    }
                }
            }
            assert(parse_u32_text(s@) is None);
            return None;
        }
        acc = next;
        i = i + 1;
    }
    assert(d.subrange(0, d.len() as int) == d);
    assert(all_digits(d));
    Some(acc as u32)
}

/// The position after the last `") "` of `s`, if it has one.
pub open spec fn after_last_paren(s: Seq<char>) -> Option<int> {
    if exists|i: int| #[trigger] paren_at(s, i) {
        Some(last_paren(s) + 2)
    } else {
        None
    }
}

/// The first position at or after `i` that holds no whitespace (or the end).
pub open spec fn skip_space(s: Seq<char>, i: int) -> int
    decreases s.len() - i,
{
    if 0 <= i < s.len() && text::is_space(s[i]) {
        skip_space(s, i + 1)
    } else {
        i
    }
}

/// The first position at or after `i` that holds whitespace (or the end).
pub open spec fn skip_word(s: Seq<char>, i: int) -> int
    decreases s.len() - i,
{
    if 0 <= i < s.len() && !text::is_space(s[i]) {
        skip_word(s, i + 1)
    } else {
        i
    }
}

/// The parent pid in the content of `/proc/<pid>/stat`: the second
/// whitespace-separated field after the last `") "` (the first is the state).
pub open spec fn stat_ppid(stat: Seq<char>) -> Option<i32> {
    match after_last_paren(stat) {
        None => None,
        Some(p) => {
            let a1 = skip_space(stat, p);
            let b1 = skip_word(stat, a1);
            let a2 = skip_space(stat, b1);
            let b2 = skip_word(stat, a2);
            if a1 >= stat.len() || a2 >= stat.len() {
                None
            } else {
                parse_i32_text(stat.subrange(a2, b2))
            }
        },
    }
}

proof fn lemma_skip_word_at(s: Seq<char>, i: int, j: int)
    requires
        0 <= i <= j <= s.len(),
        forall|k: int| i <= k < j ==> !text::is_space(s[k]),
        j == s.len() || text::is_space(s[j]),
    ensures
        skip_word(s, i) == j,
    decreases j - i,
{
    if i < j {
        lemma_skip_word_at(s, i + 1, j);
    }
}

/// The line a stat law speaks of: `<head>) <state> <field> <rest>`.
spec fn stat_line(head: Seq<char>, state: char, field: Seq<char>, rest: Seq<char>) -> Seq<char> {
    head + ") "@ + seq![state] + " "@ + field + " "@ + rest
}

proof fn lemma_stat_line_layout(head: Seq<char>, state: char, field: Seq<char>, rest: Seq<char>)
    ensures
        ({
            let s = stat_line(head, state, field, rest);
            let p = head.len() as int;
            let q = p + 4 + field.len();
            &&& s.len() == q + 1 + rest.len()
            &&& s[p] == ')' && s[p + 1] == ' ' && s[p + 2] == state && s[p + 3] == ' '
            &&& forall|k: int| p + 4 <= k < q ==> s[k] == field[k - p - 4]
            &&& s[q] == ' '
            &&& forall|k: int| q < k < s.len() ==> s[k] == rest[k - q - 1]
        }),
{
    reveal_strlit(") ");
    reveal_strlit(" ");
}

proof fn lemma_stat_line_ppid(head: Seq<char>, state: char, field: Seq<char>, rest: Seq<char>)
    requires
        !text::is_space(state),
        state != ')',
        field.len() > 0,
        forall|k: int| 0 <= k < field.len() ==> !text::is_space(field[k]) && field[k] != ')',
        forall|k: int| 0 <= k < rest.len() ==> rest[k] != ')',
    ensures
        stat_ppid(stat_line(head, state, field, rest)) == parse_i32_text(field),
{
    lemma_stat_line_layout(head, state, field, rest);
    let s = stat_line(head, state, field, rest);
    let p = head.len() as int;
    let q = p + 4 + field.len();
    assert(paren_at(s, p));
    assert forall|k: int| p < k implies !#[trigger] paren_at(s, k) by {
        if p < k < s.len() {
            if p + 4 <= k < q {
                assert(s[k] == field[k - p - 4]);
            } else if k > q {
                assert(s[k] == rest[k - q - 1]);
            }
        }
    }
    let i = last_paren(s);
    assert(paren_at(s, i) && forall|k: int| i < k ==> !#[trigger] paren_at(s, k));
    if i < p {
        assert(paren_at(s, p));
    }
    assert(i == p);
    assert(skip_space(s, p + 2) == p + 2);
    lemma_skip_word_at(s, p + 2, p + 3);
    assert(s[p + 4] == field[0]);
    assert(skip_space(s, p + 3) == skip_space(s, p + 4));
    assert(skip_space(s, p + 4) == p + 4);
    assert forall|k: int| p + 4 <= k < q implies !text::is_space(s[k]) by {
        assert(s[k] == field[k - p - 4]);
    }
    lemma_skip_word_at(s, p + 4, q);
    assert(s.subrange(p + 4, q) =~= field);
}

/// A `/proc/<pid>/stat` line `<pid> (<comm>) <state> <ppid> ...` gives exactly
/// `<ppid>`, whatever the command name holds (spaces and `) ` included), when
/// the state is one character that is neither white space nor `)` and no `)`
/// follows the parent pid.
pub proof fn lemma_stat_gives_ppid(pid: u32, comm: Seq<char>, state: char, ppid: i32, rest: Seq<char>)
    requires
        !text::is_space(state),
        state != ')',
        forall|k: int| 0 <= k < rest.len() ==> rest[k] != ')',
    ensures
        stat_ppid(
            text::decimal(pid as nat) + " ("@ + comm + ") "@ + seq![state] + " "@ + text::signed_decimal(
                ppid as int,
            ) + " "@ + rest,
        ) == Some(ppid),
{
    let sd = text::signed_decimal(ppid as int);
    let m = if ppid < 0 {
        (-(ppid as int)) as nat
    } else {
        ppid as nat
    };
    text::lemma_decimal_digits(m);
    assert forall|k: int| 0 <= k < sd.len() implies !text::is_space(sd[k]) && sd[k] != ')' by {
        if ppid < 0 && k > 0 {
            assert(sd[k] == text::decimal(m)[k - 1]);
        }
    }
    lemma_parse_reads_back(ppid, 0);
    let head = text::decimal(pid as nat) + " ("@ + comm;
    lemma_stat_line_ppid(head, state, sd, rest);
    assert(stat_line(head, state, sd, rest) =~= text::decimal(pid as nat) + " ("@ + comm + ") "@ + seq![
        state,
    ] + " "@ + sd + " "@ + rest);
}

fn skip_space_exec(v: &Vec<char>, i: usize) -> (r: usize)
    requires
        i <= v.len(),
    ensures
        r == skip_space(v@, i as int),
        i <= r <= v.len(),
{
    let mut j = i;
    while j < v.len() && text::char_is_space(v[j])
        invariant
            i <= j <= v@.len(),
            skip_space(v@, i as int) == skip_space(v@, j as int),
        decreases v@.len() - j,
    {
        j = j + 1;
    }
    j
}

fn skip_word_exec(v: &Vec<char>, i: usize) -> (r: usize)
    requires
        i <= v.len(),
    ensures
        r == skip_word(v@, i as int),
        i <= r <= v.len(),
{
    let mut j = i;
    while j < v.len() && !text::char_is_space(v[j])
        invariant
            i <= j <= v@.len(),
            skip_word(v@, i as int) == skip_word(v@, j as int),
        decreases v@.len() - j,
    {
        j = j + 1;
    }
    j
}

/// Reads the parent pid from the content of `/proc/<pid>/stat`.
pub fn parse_ppid(stat: &str) -> (r: Option<i32>)
    ensures
        r == stat_ppid(stat@),
{
    let v = text::chars_of(stat);
    let mut i: usize = v.len();
    let mut found = false;
    while i >= 2 && !found
        invariant
            v@ == stat@,
            i <= v@.len(),
            forall|k: int| i <= k + 1 ==> !#[trigger] paren_at(v@, k),
            found ==> i >= 2 && paren_at(v@, i - 2),
        decreases i, if found { 0int } else { 1int },
    {
        if v[i - 2] == ')' && v[i - 1] == ' ' {
            found = true;
        } else {
            proof {
                assert forall|k: int| i - 1 <= k + 1 implies !#[trigger] paren_at(v@, k) by {
                    if k == i - 2 {
                    }
                }
            }
            i = i - 1;
        }
    }
    if !found {
        proof {
            assert forall|k: int| !#[trigger] paren_at(v@, k) by {
                if k + 1 < i {
                    assert(i < 2);
                }
            }
        }
        return None;
    }
    proof {
        let j = (i - 2) as int;
        assert(paren_at(v@, j));
        assert(forall|k: int| j < k ==> !#[trigger] paren_at(v@, k));
        let c = last_paren(v@);
        assert(paren_at(v@, c) && forall|k: int| c < k ==> !#[trigger] paren_at(v@, k));
        if c < j {
            assert(!paren_at(v@, j));
        } else if c > j {
            assert(!paren_at(v@, c));
        }
        assert(after_last_paren(stat@) == Some(j + 2));
    }
    let a1 = skip_space_exec(&v, i);
    let b1 = skip_word_exec(&v, a1);
    let a2 = skip_space_exec(&v, b1);
    let b2 = skip_word_exec(&v, a2);
    if a1 >= v.len() || a2 >= v.len() {
        return None;
    }
    parse_i32(stat.substring_char(a2, b2))
}

} // verus!
