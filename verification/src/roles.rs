//! Sets of slot roles, kept as sorted lists without duplicates.

use vstd::prelude::*;

verus! {

/// Lexicographic order on bytes.
pub open spec fn bytes_before(a: Seq<u8>, b: Seq<u8>) -> bool
    decreases b.len(),
{
    if b.len() == 0 {
        false
    } else if a.len() == 0 {
        true
    } else if a[0] != b[0] {
        a[0] < b[0]
    } else {
        bytes_before(a.drop_first(), b.drop_first())
    }
}

/// The order of texts: that of their bytes in UTF-8.
pub open spec fn text_before(a: Seq<char>, b: Seq<char>) -> bool {
    bytes_before(vstd::utf8::encode_utf8(a), vstd::utf8::encode_utf8(b))
}

/// The texts of a list of strings.
pub open spec fn names(list: Seq<String>) -> Seq<Seq<char>> {
    list.map_values(|s: String| s@)
}

/// Whether a list is in strictly ascending order.
pub open spec fn ascends(list: Seq<Seq<char>>) -> bool {
    forall|i: int, j: int|
        #![trigger list[i], list[j]]
        0 <= i < j < list.len() ==> text_before(list[i], list[j])
}

/// Whether `roles` lists the set of the texts in `declared`: each once, in
/// ascending order, and no others.
pub open spec fn is_role_set(roles: Seq<Seq<char>>, declared: Seq<Seq<char>>) -> bool {
    &&& ascends(roles)
    &&& roles.to_set() == declared.to_set()
}

proof fn lemma_bytes_before_is_strict(a: Seq<u8>, b: Seq<u8>)
    ensures
        !bytes_before(a, a),
        bytes_before(a, b) ==> !bytes_before(b, a),
        a != b ==> bytes_before(a, b) || bytes_before(b, a),
    decreases a.len(),
{
    if a.len() > 0 {
        lemma_bytes_before_is_strict(a.drop_first(), a.drop_first());
    }
    if a.len() > 0 && b.len() > 0 && a[0] == b[0] {
        lemma_bytes_before_is_strict(a.drop_first(), b.drop_first());
        if a.drop_first() == b.drop_first() {
            assert(a =~= seq![a[0]] + a.drop_first());
            assert(b =~= seq![b[0]] + b.drop_first());
        }
    }
    if a.len() == 0 && b.len() == 0 {
        assert(a =~= b);
    }
}

proof fn lemma_bytes_before_is_transitive(a: Seq<u8>, b: Seq<u8>, c: Seq<u8>)
    requires
        bytes_before(a, b),
        bytes_before(b, c),
    ensures
        bytes_before(a, c),
    decreases c.len(),
{
    if a.len() > 0 && a[0] == b[0] && b[0] == c[0] {
        lemma_bytes_before_is_transitive(a.drop_first(), b.drop_first(), c.drop_first());
    }
}

/// The order of texts is a strict total order.
pub proof fn law_text_order_is_total(a: Seq<char>, b: Seq<char>, c: Seq<char>)
    ensures
        !text_before(a, a),
        text_before(a, b) ==> !text_before(b, a),
        a != b ==> text_before(a, b) || text_before(b, a),
        text_before(a, b) && text_before(b, c) ==> text_before(a, c),
{
    let x = vstd::utf8::encode_utf8(a);
    let y = vstd::utf8::encode_utf8(b);
    let z = vstd::utf8::encode_utf8(c);
    vstd::utf8::encode_utf8_decode_utf8(a);
    vstd::utf8::encode_utf8_decode_utf8(b);
    lemma_bytes_before_is_strict(x, y);
    if bytes_before(x, y) && bytes_before(y, z) {
        lemma_bytes_before_is_transitive(x, y, z);
    }
}

/// Whether `a` comes before `b`.
fn comes_before(a: &str, b: &str) -> (r: bool)
    ensures
        r == text_before(a@, b@),
{
    let x = a.as_bytes();
    let y = b.as_bytes();
    let mut i: usize = 0;
    proof {
        assert(x@.skip(0) =~= x@);
        assert(y@.skip(0) =~= y@);
    }
    while i < x.len() && i < y.len()
        invariant
            i <= x.len(),
            i <= y.len(),
            x@ == vstd::utf8::encode_utf8(a@),
            y@ == vstd::utf8::encode_utf8(b@),
            bytes_before(x@, y@) == bytes_before(x@.skip(i as int), y@.skip(i as int)),
        decreases x.len() - i,
    {
        proof {
            assert(x@.skip(i as int)[0] == x@[i as int]);
            assert(y@.skip(i as int)[0] == y@[i as int]);
        }
        if x[i] != y[i] {
            return x[i] < y[i];
        }
        proof {
            assert(x@.skip(i as int).drop_first() =~= x@.skip(i + 1));
            assert(y@.skip(i as int).drop_first() =~= y@.skip(i + 1));
        }
        i += 1;
    }
    i < y.len()
}

/// Adds a role to a role set.
fn add_role(roles: &mut Vec<String>, role: &String)
    requires
        ascends(names(old(roles)@)),
    ensures
        ascends(names(final(roles)@)),
        names(final(roles)@).to_set() == names(old(roles)@).to_set().insert(role@),
{
    let ghost before = names(roles@);
    let mut at: usize = 0;
    while at < roles.len() && comes_before(roles[at].as_str(), role.as_str())
        invariant
            at <= roles.len(),
            before == names(roles@),
            forall|i: int| 0 <= i < at ==> text_before(#[trigger] before[i], role@),
        decreases roles.len() - at,
    {
        proof {
            assert(before[at as int] == roles@[at as int]@);
        }
        at += 1;
    }
    proof {
        assert(roles.len() == before.len());
        if at < roles.len() {
            assert(before[at as int] == roles@[at as int]@);
        }
    }
    if at < roles.len() && roles[at] == *role {
        proof {
            assert(before.contains(role@)) by {
                assert(before[at as int] == role@);
            }
            assert(before.to_set().insert(role@) =~= before.to_set());
        }
        return ;
    }
    roles.insert(at, role.clone());
    proof {
        let after = names(roles@);
        assert(after =~= before.insert(at as int, role@));
        assert forall|i: int, j: int|
            #![trigger after[i], after[j]]
            0 <= i < j < after.len() implies text_before(after[i], after[j]) by {
            if i < at && j > at {
                assert(after[i] == before[i] && after[j] == before[j - 1]);
            } else if j == at {
                assert(after[i] == before[i]);
            } else if i == at {
                assert(after[j] == before[j - 1]);
                law_text_order_is_total(before[at as int], role@, role@);
                law_text_order_is_total(role@, before[at as int], before[j - 1]);
                if j - 1 > at {
                    assert(text_before(before[at as int], before[j - 1]));
                }
            } else if i > at {
                assert(after[i] == before[i - 1] && after[j] == before[j - 1]);
            } else {
                assert(after[i] == before[i] && after[j] == before[j]);
            }
        }
        assert(after.to_set() =~= before.to_set().insert(role@)) by {
            assert forall|s: Seq<char>| after.contains(s) == (before.contains(s) || s == role@) by {
                if before.contains(s) {
                    let k = choose|k: int| 0 <= k < before.len() && before[k] == s;
                    assert(after[if k < at { k } else { k + 1 }] == s);
                }
                assert(after[at as int] == role@);
                if after.contains(s) && s != role@ {
                    let k = choose|k: int| 0 <= k < after.len() && after[k] == s;
                    assert(before[if k < at { k } else { k - 1 }] == s);
                }
            }
        }
    }
}

/// The set of the declared roles.
pub fn role_set(declared: &Vec<String>) -> (r: Vec<String>)
    ensures
        is_role_set(names(r@), names(declared@)),
{
    let mut roles: Vec<String> = Vec::new();
    let ghost all = names(declared@);
    let mut i: usize = 0;
    proof {
        assert(names(roles@).to_set() =~= all.take(0).to_set());
    }
    while i < declared.len()
        invariant
            i <= declared.len(),
            all == names(declared@),
            ascends(names(roles@)),
            names(roles@).to_set() == all.take(i as int).to_set(),
        decreases declared.len() - i,
    {
        add_role(&mut roles, &declared[i]);
        proof {
            let done = all.take(i as int);
            let more = all.take(i + 1);
            assert(more =~= done.push(all[i as int]));
            assert(all[i as int] == declared@[i as int]@);
            assert(more.to_set() =~= done.to_set().insert(all[i as int])) by {
                assert forall|s: Seq<char>| more.contains(s) == (done.contains(s) || s
                    == all[i as int]) by {
                    if done.contains(s) {
                        let k = choose|k: int| 0 <= k < done.len() && done[k] == s;
                        assert(more[k] == s);
                    }
                    assert(more[i as int] == all[i as int]);
                }
            }
        }
        i += 1;
    }
    proof {
        assert(all.take(i as int) =~= all);
    }
    roles
}

/// A set of roles is listed in one way only, whatever the order in which it was
/// declared and however often each role was.
pub proof fn law_role_set_is_unique(
    a: Seq<Seq<char>>,
    b: Seq<Seq<char>>,
    declared: Seq<Seq<char>>,
    redeclared: Seq<Seq<char>>,
)
    requires
        is_role_set(a, declared),
        is_role_set(b, redeclared),
        declared.to_set() == redeclared.to_set(),
    ensures
        a == b,
{
    assert forall|s: Seq<char>| a.contains(s) == b.contains(s) by {
        assert(a.to_set().contains(s) == b.to_set().contains(s));
    }
    lemma_ascending_lists_agree(a, b);
}

proof fn lemma_ascending_lists_agree(a: Seq<Seq<char>>, b: Seq<Seq<char>>)
    requires
        ascends(a),
        ascends(b),
        forall|s: Seq<char>| a.contains(s) == b.contains(s),
    ensures
        a == b,
    decreases a.len() + b.len(),
{
    if a.len() == 0 || b.len() == 0 {
        if a.len() > 0 {
            assert(a.contains(a[0]));
        }
        if b.len() > 0 {
            assert(b.contains(b[0]));
        }
        assert(a =~= b);
    } else {
        let x = a.last();
        let y = b.last();
        assert(a.contains(x) && b.contains(y));
        let i = choose|i: int| 0 <= i < b.len() && b[i] == x;
        let j = choose|j: int| 0 <= j < a.len() && a[j] == y;
        law_text_order_is_total(x, y, y);
        if i < b.len() - 1 {
            assert(text_before(b[i], b[b.len() - 1]));
        }
        if j < a.len() - 1 {
            assert(text_before(a[j], a[a.len() - 1]));
        }
        assert(x == y);
        let c = a.drop_last();
        let d = b.drop_last();
        assert forall|s: Seq<char>| c.contains(s) == d.contains(s) by {
            law_text_order_is_total(x, x, x);
            if c.contains(s) {
                let k = choose|k: int| 0 <= k < c.len() && c[k] == s;
                assert(a[k] == s && text_before(a[k], a[a.len() - 1]));
                assert(a.contains(s));
                let m = choose|m: int| 0 <= m < b.len() && b[m] == s;
                assert(d[m] == s);
            }
            if d.contains(s) {
                let k = choose|k: int| 0 <= k < d.len() && d[k] == s;
                assert(b[k] == s && text_before(b[k], b[b.len() - 1]));
                assert(b.contains(s));
                let m = choose|m: int| 0 <= m < a.len() && a[m] == s;
                assert(c[m] == s);
            }
        }
        lemma_ascending_lists_agree(c, d);
        assert(a =~= c.push(x));
        assert(b =~= d.push(y));
    }
}

/// Texts are ordered by the first byte in which they differ, and where there is none,
/// the shorter comes first.
pub proof fn law_text_order_is_that_of_bytes(a: Seq<char>, b: Seq<char>)
    ensures
        text_before(a, b) <==> exists|n: int|
            0 <= n <= vstd::utf8::encode_utf8(a).len() && n < vstd::utf8::encode_utf8(b).len()
                && #[trigger] vstd::utf8::encode_utf8(a).take(n) == vstd::utf8::encode_utf8(b).take(
                n,
            ) && (n < vstd::utf8::encode_utf8(a).len() ==> vstd::utf8::encode_utf8(a)[n]
                < vstd::utf8::encode_utf8(b)[n]),
{
    let (x, y) = (vstd::utf8::encode_utf8(a), vstd::utf8::encode_utf8(b));
    if bytes_before(x, y) {
        lemma_first_difference(x, y);
    }
    if exists|n: int|
        0 <= n <= x.len() && n < y.len() && #[trigger] x.take(n) == y.take(n) && (n < x.len()
            ==> x[n] < y[n]) {
        let n = choose|n: int|
            0 <= n <= x.len() && n < y.len() && #[trigger] x.take(n) == y.take(n) && (n < x.len()
                ==> x[n] < y[n]);
        lemma_difference_decides(x, y, n);
    }
}

proof fn lemma_first_difference(x: Seq<u8>, y: Seq<u8>)
    requires
        bytes_before(x, y),
    ensures
        exists|n: int|
            0 <= n <= x.len() && n < y.len() && #[trigger] x.take(n) == y.take(n) && (n < x.len()
                ==> x[n] < y[n]),
    decreases y.len(),
{
    if x.len() == 0 || x[0] != y[0] {
        assert(x.take(0) =~= y.take(0));
    } else {
        let (u, v) = (x.drop_first(), y.drop_first());
        lemma_first_difference(u, v);
        let n = choose|n: int|
            0 <= n <= u.len() && n < v.len() && #[trigger] u.take(n) == v.take(n) && (n < u.len()
                ==> u[n] < v[n]);
        assert(x.take(n + 1) =~= y.take(n + 1)) by {
            assert forall|i: int| 0 <= i < n + 1 implies x[i] == y[i] by {
                if i > 0 {
                    assert(u.take(n)[i - 1] == v.take(n)[i - 1]);
                }
            }
        }
    }
}

proof fn lemma_difference_decides(x: Seq<u8>, y: Seq<u8>, n: int)
    requires
        0 <= n <= x.len(),
        n < y.len(),
        x.take(n) == y.take(n),
        n < x.len() ==> x[n] < y[n],
    ensures
        bytes_before(x, y),
    decreases n,
{
    if n > 0 {
        assert forall|i: int| 0 <= i < n implies #[trigger] x[i] == y[i] by {
            assert(x.take(n)[i] == x[i]);
            assert(y.take(n)[i] == y[i]);
        }
        assert(x[0] == y[0]);
        let (u, v) = (x.drop_first(), y.drop_first());
        assert(u.take(n - 1) =~= v.take(n - 1)) by {
            assert forall|i: int| 0 <= i < n - 1 implies u[i] == v[i] by {
                assert(x[i + 1] == y[i + 1]);
            }
        }
        lemma_difference_decides(u, v, n - 1);
    }
}

/// A role set has the roles that were declared, no others, and none of them twice; each
/// comes before those that follow it.
pub proof fn law_role_set_has_declared_roles_once(
    roles: Seq<String>,
    declared: Seq<String>,
    role: Seq<char>,
)
    requires
        is_role_set(names(roles), names(declared)),
    ensures
        (exists|i: int| 0 <= i < roles.len() && (#[trigger] roles[i])@ == role) <==> (exists|j: int|
            0 <= j < declared.len() && (#[trigger] declared[j])@ == role),
        forall|i: int, j: int|
            0 <= i < j < roles.len() ==> (#[trigger] roles[i])@ != (#[trigger] roles[j])@
                && text_before(roles[i]@, roles[j]@),
{
    let (r, d) = (names(roles), names(declared));
    assert(r.to_set().contains(role) == d.to_set().contains(role));
    assert(r.contains(role) == d.contains(role));
    if exists|i: int| 0 <= i < roles.len() && (#[trigger] roles[i])@ == role {
        let i = choose|i: int| 0 <= i < roles.len() && (#[trigger] roles[i])@ == role;
        assert(r[i] == role);
        let j = choose|j: int| 0 <= j < d.len() && d[j] == role;
        assert(declared[j]@ == role);
    }
    if exists|j: int| 0 <= j < declared.len() && (#[trigger] declared[j])@ == role {
        let j = choose|j: int| 0 <= j < declared.len() && (#[trigger] declared[j])@ == role;
        assert(d[j] == role);
        let i = choose|i: int| 0 <= i < r.len() && r[i] == role;
        assert(roles[i]@ == role);
    }
    assert forall|i: int, j: int| 0 <= i < j < roles.len() implies (#[trigger] roles[i])@ != (
    #[trigger] roles[j])@ && text_before(roles[i]@, roles[j]@) by {
        assert(r[i] == roles[i]@ && r[j] == roles[j]@);
        assert(text_before(r[i], r[j]));
        law_text_order_is_total(r[i], r[j], r[j]);
    }
}

} // verus!
