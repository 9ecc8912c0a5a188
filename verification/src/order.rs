//! The order in which file names and paths are listed.
use vstd::prelude::*;

verus! {

/// The components of a path, each spelled as bytes.
pub type Parts = Seq<Seq<u8>>;

/// `a` and `b` agree before position `k`, and there `a` ends or holds the smaller byte.
pub open spec fn bytes_diverge_at(a: Seq<u8>, b: Seq<u8>, k: int) -> bool {
    &&& 0 <= k <= a.len()
    &&& k < b.len()
    &&& forall|i: int| 0 <= i < k ==> a[i] == b[i]
    &&& k == a.len() || a[k] < b[k]
}

/// The lexicographic order of byte strings.
pub open spec fn bytes_lt(a: Seq<u8>, b: Seq<u8>) -> bool {
    exists|k: int| bytes_diverge_at(a, b, k)
}

/// `a` and `b` agree before position `k`, and there `a` holds the smaller byte.
pub open spec fn bytes_smaller_at(a: Seq<u8>, b: Seq<u8>, k: int) -> bool {
    &&& 0 <= k < a.len()
    &&& k < b.len()
    &&& forall|i: int| 0 <= i < k ==> a[i] == b[i]
    &&& a[k] < b[k]
}

/// The component that stands for the root of the file system.
pub open spec fn root_part() -> Seq<u8> {
    seq![0x2fu8]
}

/// The component that stands for the current directory.
pub open spec fn current_part() -> Seq<u8> {
    seq![0x2eu8]
}

/// The component that stands for the parent directory.
pub open spec fn parent_part() -> Seq<u8> {
    seq![0x2eu8, 0x2eu8]
}

/// The kinds of component in their order: root, current directory, parent directory, name.
pub open spec fn part_rank(part: Seq<u8>) -> int {
    if part == root_part() {
        0
    } else if part == current_part() {
        1
    } else if part == parent_part() {
        2
    } else {
        3
    }
}

/// The order of path components: by kind, and names by their bytes.
pub open spec fn part_lt(a: Seq<u8>, b: Seq<u8>) -> bool {
    ||| part_rank(a) < part_rank(b)
    ||| part_rank(a) == part_rank(b) && bytes_lt(a, b)
}

/// `a` and `b` agree before component `k`, and there `a` ends or holds the smaller component.
pub open spec fn paths_diverge_at(a: Parts, b: Parts, k: int) -> bool {
    &&& 0 <= k <= a.len()
    &&& k < b.len()
    &&& forall|i: int| 0 <= i < k ==> a[i] == b[i]
    &&& k == a.len() || part_lt(a[k], b[k])
}

/// The order of paths: component by component.
pub open spec fn path_lt(a: Parts, b: Parts) -> bool {
    exists|k: int| paths_diverge_at(a, b, k)
}

/// No byte string comes before itself.
pub proof fn bytes_lt_irreflexive(a: Seq<u8>)
    ensures
        !bytes_lt(a, a),
{
}

/// The order of byte strings is transitive.
pub proof fn bytes_lt_transitive(a: Seq<u8>, b: Seq<u8>, c: Seq<u8>)
    requires
        bytes_lt(a, b),
        bytes_lt(b, c),
    ensures
        bytes_lt(a, c),
{
    let j = choose|j: int| bytes_diverge_at(a, b, j);
    let k = choose|k: int| bytes_diverge_at(b, c, k);
    if j < k {
        assert(bytes_diverge_at(a, c, j));
    } else {
        assert(bytes_diverge_at(a, c, k));
    }
}

/// Of two different byte strings one comes before the other.
pub proof fn bytes_lt_total(a: Seq<u8>, b: Seq<u8>)
    ensures
        a == b || bytes_lt(a, b) || bytes_lt(b, a),
    decreases a.len(),
{
    if a.len() == 0 {
        if b.len() > 0 {
            assert(bytes_diverge_at(a, b, 0));
        } else {
            assert(a =~= b);
        }
    } else if b.len() == 0 {
        assert(bytes_diverge_at(b, a, 0));
    } else if a[0] < b[0] {
        assert(bytes_diverge_at(a, b, 0));
    } else if b[0] < a[0] {
        assert(bytes_diverge_at(b, a, 0));
    } else {
        let x = a.drop_first();
        let y = b.drop_first();
        bytes_lt_total(x, y);
        if x == y {
            assert(a =~= seq![a[0]] + x);
            assert(b =~= seq![b[0]] + y);
        } else if bytes_lt(x, y) {
            let k = choose|k: int| bytes_diverge_at(x, y, k);
            assert forall|i: int| 0 <= i < k + 1 implies a[i] == b[i] by {
                if i > 0 {
                    assert(x[i - 1] == y[i - 1]);
                }
            }
            assert(bytes_diverge_at(a, b, k + 1));
        } else {
            let k = choose|k: int| bytes_diverge_at(y, x, k);
            assert forall|i: int| 0 <= i < k + 1 implies b[i] == a[i] by {
                if i > 0 {
                    assert(y[i - 1] == x[i - 1]);
                }
            }
            assert(bytes_diverge_at(b, a, k + 1));
        }
    }
}

/// A smaller byte decides, whatever stands before and behind.
pub proof fn smaller_byte_decides(
    before: Seq<u8>,
    a: Seq<u8>,
    b: Seq<u8>,
    k: int,
    x: Seq<u8>,
    y: Seq<u8>,
)
    requires
        bytes_smaller_at(a, b, k),
    ensures
        bytes_smaller_at(before + a + x, before + b + y, before.len() + k),
        bytes_lt(before + a + x, before + b + y),
{
    let p = before + a + x;
    let q = before + b + y;
    assert forall|i: int| 0 <= i < before.len() + k implies p[i] == q[i] by {
        if i >= before.len() {
            assert(p[i] == a[i - before.len()]);
            assert(q[i] == b[i - before.len()]);
        }
    }
    assert(p[before.len() + k] == a[k]);
    assert(q[before.len() + k] == b[k]);
    assert(bytes_diverge_at(p, q, before.len() + k));
}

/// No component comes before itself.
pub proof fn part_lt_irreflexive(a: Seq<u8>)
    ensures
        !part_lt(a, a),
{
    bytes_lt_irreflexive(a);
}

/// The order of components is transitive.
pub proof fn part_lt_transitive(a: Seq<u8>, b: Seq<u8>, c: Seq<u8>)
    requires
        part_lt(a, b),
        part_lt(b, c),
    ensures
        part_lt(a, c),
{
    if part_rank(a) == part_rank(b) && part_rank(b) == part_rank(c) {
        bytes_lt_transitive(a, b, c);
    }
}

/// Of two different components one comes before the other.
pub proof fn part_lt_total(a: Seq<u8>, b: Seq<u8>)
    ensures
        a == b || part_lt(a, b) || part_lt(b, a),
{
    bytes_lt_total(a, b);
}

/// No path comes before itself.
pub proof fn path_lt_irreflexive(a: Parts)
    ensures
        !path_lt(a, a),
{
    if path_lt(a, a) {
        let k = choose|k: int| paths_diverge_at(a, a, k);
        part_lt_irreflexive(a[k]);
    }
}

/// The order of paths is transitive.
pub proof fn path_lt_transitive(a: Parts, b: Parts, c: Parts)
    requires
        path_lt(a, b),
        path_lt(b, c),
    ensures
        path_lt(a, c),
{
    let j = choose|j: int| paths_diverge_at(a, b, j);
    let k = choose|k: int| paths_diverge_at(b, c, k);
    if j < k {
        assert(paths_diverge_at(a, c, j));
    } else if k < j {
        assert(paths_diverge_at(a, c, k));
    } else {
        if j < a.len() {
            part_lt_transitive(a[j], b[j], c[j]);
        }
        assert(paths_diverge_at(a, c, j));
    }
}

/// A first component that both paths have does not decide.
proof fn paths_diverge_behind(a: Parts, b: Parts, k: int)
    requires
        a.len() > 0,
        b.len() > 0,
        a[0] == b[0],
        paths_diverge_at(a.drop_first(), b.drop_first(), k),
    ensures
        path_lt(a, b),
{
    let x = a.drop_first();
    let y = b.drop_first();
    assert forall|i: int| 0 <= i < k + 1 implies a[i] == b[i] by {
        if i > 0 {
            assert(x[i - 1] == y[i - 1]);
        }
    }
    assert(paths_diverge_at(a, b, k + 1));
}

/// Of two different paths one comes before the other.
pub proof fn path_lt_total(a: Parts, b: Parts)
    ensures
        a == b || path_lt(a, b) || path_lt(b, a),
    decreases a.len(),
{
    if a.len() == 0 {
        if b.len() > 0 {
            assert(paths_diverge_at(a, b, 0));
        } else {
            assert(a =~= b);
        }
    } else if b.len() == 0 {
        assert(paths_diverge_at(b, a, 0));
    } else if a[0] != b[0] {
        part_lt_total(a[0], b[0]);
        if part_lt(a[0], b[0]) {
            assert(paths_diverge_at(a, b, 0));
        } else {
            assert(paths_diverge_at(b, a, 0));
        }
    } else {
        let x = a.drop_first();
        let y = b.drop_first();
        path_lt_total(x, y);
        if x == y {
            assert(a =~= seq![a[0]] + x);
            assert(b =~= seq![b[0]] + y);
        } else if path_lt(x, y) {
            paths_diverge_behind(a, b, choose|k: int| paths_diverge_at(x, y, k));
        } else {
            paths_diverge_behind(b, a, choose|k: int| paths_diverge_at(y, x, k));
        }
    }
}

/// At most one of two paths comes before the other.
pub proof fn path_lt_asymmetric(a: Parts, b: Parts)
    requires
        path_lt(a, b),
    ensures
        !path_lt(b, a),
{
    if path_lt(b, a) {
        path_lt_transitive(a, b, a);
        path_lt_irreflexive(a);
    }
}

/// Whether `a` comes before `b` in the order of byte strings.
pub fn bytes_precede(a: &[u8], b: &[u8]) -> (res: bool)
    ensures
        res == bytes_lt(a@, b@),
{
    let mut i: usize = 0;
    while i < a.len() && i < b.len() && a[i] == b[i]
        invariant
            i <= a@.len(),
            i <= b@.len(),
            forall|j: int| 0 <= j < i ==> a@[j] == b@[j],
        decreases a@.len() - i,
    {
        i = i + 1;
    }
    let res = i < b.len() && (i == a.len() || a[i] < b[i]);
    proof {
        if res {
            assert(bytes_diverge_at(a@, b@, i as int));
        } else if bytes_lt(a@, b@) {
            let k = choose|k: int| bytes_diverge_at(a@, b@, k);
            assert(k <= i);
        }
    }
    res
}

/// Whether two byte strings are the same.
pub fn bytes_equal(a: &[u8], b: &[u8]) -> (res: bool)
    ensures
        res == (a@ == b@),
{
    if a.len() != b.len() {
        return false;
    }
    let mut i: usize = 0;
    while i < a.len()
        invariant
            i <= a@.len(),
            a@.len() == b@.len(),
            forall|j: int| 0 <= j < i ==> a@[j] == b@[j],
        decreases a@.len() - i,
    {
        if a[i] != b[i] {
            return false;
        }
        i = i + 1;
    }
    assert(a@ =~= b@);
    true
}

} // verus!
