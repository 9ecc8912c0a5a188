//! Paths and their order.
use crate::order::{
    bytes_diverge_at, bytes_equal, bytes_precede, part_lt, path_lt_asymmetric, path_lt_total,
    path_lt_transitive, paths_diverge_at, Parts,
};
use crate::path::{
    append_bytes, last_dot, last_dot_bounds, last_dot_unique, names, names_single, names_split,
    LogPath, DOT, SEPARATOR,
};
use vstd::prelude::*;

verus! {

/// A text without a separator that is neither empty nor a dot is a path of one component; the empty
/// text is one of none.
pub proof fn name_is_one_component(text: &[u8], res: LogPath)
    requires
        call_ensures(LogPath::from_bytes, (text,), res),
        forall|i: int| 0 <= i < text@.len() ==> text@[i] != 0x2fu8,
    ensures
        text@.len() == 0 ==> res@ == Seq::<Seq<u8>>::empty(),
        text@ == seq![0x2eu8] ==> res@ == seq![seq![0x2eu8]],
        text@.len() > 0 && text@ != seq![0x2eu8] ==> res@ == seq![text@],
{
    names_single(text@);
    if text@ == seq![0x2eu8] {
        assert(res@ =~= seq![seq![0x2eu8]]);
    } else if text@.len() > 0 {
        if text@.len() == 1 && text@[0] == DOT {
            assert(text@ =~= seq![0x2eu8]);
        }
        assert(res@ =~= seq![text@]);
    } else {
        assert(res@ =~= Seq::<Seq<u8>>::empty());
    }
}

/// A text behind a separator goes on where the text before it ends; a `.` that begins it does not
/// count.
pub proof fn separator_joins(
    before: &[u8],
    after: &[u8],
    whole: &[u8],
    a: LogPath,
    b: LogPath,
    res: LogPath,
)
    requires
        call_ensures(LogPath::from_bytes, (before,), a),
        call_ensures(LogPath::from_bytes, (after,), b),
        call_ensures(LogPath::from_bytes, (whole,), res),
        before@.len() > 0,
        whole@ == before@ + seq![0x2fu8] + after@,
    ensures
        after@.len() > 0 && (after@[0] == 0x2fu8 || after@[0] == 0x2eu8 && (after@.len() == 1
            || after@[1] == 0x2fu8)) ==> res@ == a@ + b@.skip(1),
        !(after@.len() > 0 && (after@[0] == 0x2fu8 || after@[0] == 0x2eu8 && (after@.len() == 1
            || after@[1] == 0x2fu8))) ==> res@ == a@ + b@,
{
    assert(whole@ =~= before@.push(SEPARATOR) + after@);
    names_split(before@, after@);
    assert(whole@[0] == before@[0]);
    if before@.len() > 1 {
        assert(whole@[1] == before@[1]);
    } else {
        assert(whole@[1] == SEPARATOR);
    }
    if after@.len() > 0 && (after@[0] == SEPARATOR || after@[0] == DOT && (after@.len() == 1
        || after@[1] == SEPARATOR)) {
        assert(b@.skip(1) =~= names(after@));
        assert(res@ =~= a@ + b@.skip(1));
    } else {
        assert(res@ =~= a@ + b@);
    }
}

/// A leading separator stands for the root.
pub proof fn leading_separator_is_the_root(text: &[u8], rooted: &[u8], rest: LogPath, res: LogPath)
    requires
        call_ensures(LogPath::from_bytes, (text,), rest),
        call_ensures(LogPath::from_bytes, (rooted,), res),
        rooted@ == seq![0x2fu8] + text@,
        !(text@.len() > 0 && (text@[0] == 0x2fu8 || text@[0] == 0x2eu8 && (text@.len() == 1
            || text@[1] == 0x2fu8))),
    ensures
        res@ == seq![seq![0x2fu8]] + rest@,
{
    let empty = Seq::<u8>::empty();
    assert(rooted@ =~= empty.push(SEPARATOR) + text@);
    names_split(empty, text@);
    names_single(empty);
    assert(rooted@[0] == SEPARATOR);
    assert(res@ =~= seq![seq![0x2fu8]] + rest@);
}

/// What a path is spelled as names the same path again, and different paths are spelled
/// differently.
pub proof fn spelling_is_read_back(
    a: LogPath,
    b: LogPath,
    text: Vec<u8>,
    other: Vec<u8>,
    read: &[u8],
    res: LogPath,
)
    requires
        call_ensures(LogPath::to_bytes, (&a,), text),
        call_ensures(LogPath::to_bytes, (&b,), other),
        read@ == text@,
        call_ensures(LogPath::from_bytes, (read,), res),
    ensures
        res@ == a@,
        text@ == other@ <==> a@ == b@,
{
}

/// A path is spelled with one separator between components, and none behind the root.
pub proof fn spelling_is_shortest(path: LogPath, front: LogPath, text: Vec<u8>, before: Vec<u8>)
    requires
        call_ensures(LogPath::to_bytes, (&path,), text),
        call_ensures(LogPath::to_bytes, (&front,), before),
        path@.len() > 0,
        front@ == path@.drop_last(),
    ensures
        path@.len() == 1 ==> text@ == path@[0],
        path@.len() == 2 && path@[0] == seq![0x2fu8] ==> text@ == before@ + path@[1],
        path@.len() > 2 || path@.len() == 2 && path@[0] != seq![0x2fu8] ==> text@ == before@
            + seq![0x2fu8] + path@.last(),
{
    if path@.len() == 2 {
        assert(front@[0] == path@[0]);
    }
    if path@.len() > 2 || path@.len() == 2 && path@[0] != seq![0x2fu8] {
        assert(text@ =~= before@ + seq![0x2fu8] + path@.last());
    }
}

/// What is read inside a directory lies there, unless it begins with a separator; a `.` that begins
/// it does not count.
pub proof fn text_is_read_inside(dir: LogPath, text: &[u8], alone: LogPath, res: LogPath)
    requires
        call_ensures(LogPath::from_bytes, (text,), alone),
        call_ensures(LogPath::join, (&dir, text), res),
    ensures
        dir@.len() == 0 ==> res@ == alone@,
        text@.len() > 0 && text@[0] == 0x2fu8 ==> res@ == alone@,
        dir@.len() > 0 && text@.len() > 0 && text@[0] == 0x2eu8 && (text@.len() == 1 || text@[1]
            == 0x2fu8) ==> res@ == dir@ + alone@.skip(1),
        dir@.len() > 0 && !(text@.len() > 0 && (text@[0] == 0x2fu8 || text@[0] == 0x2eu8 && (
        text@.len() == 1 || text@[1] == 0x2fu8))) ==> res@ == dir@ + alone@,
{
    if text@.len() > 0 && text@[0] == DOT && (text@.len() == 1 || text@[1] == SEPARATOR) {
        assert(alone@.skip(1) =~= names(text@));
    } else if !(text@.len() > 0 && text@[0] == SEPARATOR) {
        assert(alone@ =~= names(text@));
    }
}

/// Paths are the same that have the same components, and a copy is the same.
pub proof fn same_paths_have_the_same_components(
    a: LogPath,
    b: LogPath,
    res: bool,
    copy: LogPath,
)
    requires
        call_ensures(LogPath::same_as, (&a, &b), res),
        call_ensures(<LogPath as Clone>::clone, (&a,), copy),
    ensures
        res <==> a@.len() == b@.len() && forall|i: int|
            0 <= i < a@.len() ==> (#[trigger] a@[i]) == b@[i],
        copy@ == a@,
{
    if a@.len() == b@.len() && (forall|i: int| 0 <= i < a@.len() ==> (#[trigger] a@[i]) == b@[i]) {
        assert(a@ =~= b@);
    }
}

/// Of two paths exactly one precedes the other, unless they are the same.
pub proof fn one_of_two_paths_precedes(a: LogPath, b: LogPath, there: bool, back: bool)
    requires
        call_ensures(LogPath::precedes, (&a, &b), there),
        call_ensures(LogPath::precedes, (&b, &a), back),
    ensures
        a@ == b@ ==> !there && !back,
        a@ != b@ ==> there == !back,
{
    path_lt_total(a@, b@);
    if there {
        path_lt_asymmetric(a@, b@);
    }
}

/// What precedes a path precedes all that this path precedes.
pub proof fn precedence_carries_on(
    a: LogPath,
    b: LogPath,
    c: LogPath,
    first: bool,
    second: bool,
    both: bool,
)
    requires
        call_ensures(LogPath::precedes, (&a, &b), first),
        call_ensures(LogPath::precedes, (&b, &c), second),
        call_ensures(LogPath::precedes, (&a, &c), both),
        first,
        second,
    ensures
        both,
{
    path_lt_transitive(a@, b@, c@);
}

/// A path precedes those that lie inside it.
pub proof fn directory_precedes_its_contents(a: LogPath, b: LogPath, res: bool)
    requires
        call_ensures(LogPath::precedes, (&a, &b), res),
        a@.len() < b@.len(),
        b@.take(a@.len() as int) == a@,
    ensures
        res,
{
    assert forall|i: int| 0 <= i < a@.len() implies a@[i] == b@[i] by {
        assert(b@.take(a@.len() as int)[i] == b@[i]);
    }
    assert(paths_diverge_at(a@, b@, a@.len() as int));
}

/// The first component in which two paths differ decides: names are ordered by the first byte in
/// which they differ, and a name that ends there comes first.
pub proof fn first_difference_decides(a: LogPath, b: LogPath, k: int, m: int, res: bool)
    requires
        call_ensures(LogPath::precedes, (&a, &b), res),
        0 <= k < a@.len(),
        k < b@.len(),
        a@.take(k) == b@.take(k),
        a@[k] != seq![0x2fu8] && a@[k] != seq![0x2eu8] && a@[k] != seq![0x2eu8, 0x2eu8],
        b@[k] != seq![0x2fu8] && b@[k] != seq![0x2eu8] && b@[k] != seq![0x2eu8, 0x2eu8],
        0 <= m <= a@[k].len(),
        m < b@[k].len(),
        a@[k].take(m) == b@[k].take(m),
        m < a@[k].len() ==> a@[k][m] < b@[k][m],
    ensures
        res,
{
    first_difference_diverges(a@, b@, k);
    let x = a@[k];
    let y = b@[k];
    assert forall|i: int| 0 <= i < m implies x[i] == y[i] by {
        assert(x.take(m)[i] == y.take(m)[i]);
    }
    assert(bytes_diverge_at(x, y, m));
    assert(part_lt(x, y));
    assert(paths_diverge_at(a@, b@, k));
}

/// Where two paths agree before a component, they agree in each one.
proof fn first_difference_diverges(a: Parts, b: Parts, k: int)
    requires
        0 <= k <= a.len(),
        k <= b.len(),
        a.take(k) == b.take(k),
    ensures
        forall|i: int| 0 <= i < k ==> a[i] == b[i],
{
    assert forall|i: int| 0 <= i < k implies a[i] == b[i] by {
        assert(a.take(k)[i] == b.take(k)[i]);
    }
}

/// Where two paths first differ, the root comes before `.`, this before `..`, and all three before
/// any name.
pub proof fn kinds_of_component_are_ordered(a: LogPath, b: LogPath, k: int, res: bool)
    requires
        call_ensures(LogPath::precedes, (&a, &b), res),
        0 <= k < a@.len(),
        k < b@.len(),
        a@.take(k) == b@.take(k),
        ({
            ||| a@[k] == seq![0x2fu8] && b@[k] != seq![0x2fu8]
            ||| a@[k] == seq![0x2eu8] && b@[k] != seq![0x2fu8] && b@[k] != seq![0x2eu8]
            ||| a@[k] == seq![0x2eu8, 0x2eu8] && b@[k] != seq![0x2fu8] && b@[k] != seq![0x2eu8]
                && b@[k] != seq![0x2eu8, 0x2eu8]
        }),
    ensures
        res,
{
    first_difference_diverges(a@, b@, k);
    assert(seq![0x2fu8][0] != seq![0x2eu8][0]);
    assert(seq![0x2fu8].len() == 1 && seq![0x2eu8].len() == 1 && seq![0x2eu8, 0x2eu8].len() == 2);
    assert(part_lt(a@[k], b@[k]));
    assert(paths_diverge_at(a@, b@, k));
}

/// The extension is what stands behind the last dot of the file name, unless that dot begins the
/// name.
pub proof fn extension_is_behind_the_last_dot(
    path: LogPath,
    stem: Seq<u8>,
    ext: Seq<u8>,
    res: Option<Vec<u8>>,
)
    requires
        call_ensures(LogPath::extension, (&path,), res),
        path@.len() > 0,
        path@.last() == stem + seq![0x2eu8] + ext,
        path@.last() != seq![0x2eu8, 0x2eu8],
        forall|i: int| 0 <= i < ext.len() ==> ext[i] != 0x2eu8,
    ensures
        stem.len() > 0 ==> (res matches Some(found) && found@ == ext),
        stem.len() == 0 ==> res is None,
{
    let name = path@.last();
    assert(name[stem.len() as int] == DOT);
    assert forall|i: int| stem.len() < i < name.len() implies name[i] != DOT by {
        assert(name[i] == ext[i - stem.len() - 1]);
    }
    last_dot_unique(name, stem.len() as int);
    if stem.len() > 0 {
        assert(name.len() > 1 && seq![0x2fu8].len() == 1 && seq![0x2eu8].len() == 1);
        assert(name.skip(stem.len() as int + 1) =~= ext);
    }
}

/// A file name without a dot has no extension, nor has a path without a file name.
pub proof fn other_paths_have_no_extension(path: LogPath, res: Option<Vec<u8>>)
    requires
        call_ensures(LogPath::extension, (&path,), res),
        path@.len() == 0 || path@.last() == seq![0x2eu8, 0x2eu8] || forall|i: int|
            0 <= i < path@.last().len() ==> path@.last()[i] != 0x2eu8,
    ensures
        res is None,
{
    if path@.len() > 0 {
        last_dot_bounds(path@.last());
    }
}

/// A path has the extension that it is found to have and no other.
pub proof fn extension_is_told(path: LogPath, ext: &[u8], res: Option<Vec<u8>>, has: bool)
    requires
        call_ensures(LogPath::extension, (&path,), res),
        call_ensures(LogPath::has_extension, (&path, ext), has),
    ensures
        has <==> (res matches Some(found) && found@ == ext@),
{
}

/// A new extension takes the place of the old one; where there was none, it is added. The directory
/// stays, and a path without a file name stays as it is.
pub proof fn extension_is_replaced(
    path: LogPath,
    ext: &[u8],
    before: Option<Vec<u8>>,
    res: LogPath,
)
    requires
        call_ensures(LogPath::extension, (&path,), before),
        call_ensures(LogPath::with_extension, (&path, ext), res),
    ensures
        path@.len() == 0 || path@.last() == seq![0x2fu8] || path@.last() == seq![0x2eu8]
            || path@.last() == seq![0x2eu8, 0x2eu8] ==> res@ == path@,
        !(path@.len() == 0 || path@.last() == seq![0x2fu8] || path@.last() == seq![0x2eu8]
            || path@.last() == seq![0x2eu8, 0x2eu8]) ==> {
            &&& res@.len() == path@.len()
            &&& res@.drop_last() == path@.drop_last()
            &&& before is None ==> res@.last() == path@.last() + seq![0x2eu8] + ext@
            &&& before matches Some(found) ==> res@.last() == path@.last().take(
                path@.last().len() - found@.len(),
            ) + ext@
        },
{
    if !(path@.len() == 0 || path@.last() == seq![0x2fu8] || path@.last() == seq![0x2eu8]
        || path@.last() == seq![0x2eu8, 0x2eu8]) {
        let name = path@.last();
        last_dot_bounds(name);
        assert(res@.drop_last() =~= path@.drop_last());
        let dot = last_dot(name);
        if dot > 0 {
            assert(name.take(dot).push(DOT) + ext@ =~= name.take(dot + 1) + ext@);
        } else {
            assert(name.push(DOT) + ext@ =~= name + seq![0x2eu8] + ext@);
        }
    }
}

/// The directory of a path is the path without its last component; the root lies in none, nor does
/// the empty path.
pub proof fn directory_is_all_but_the_last(path: LogPath, res: Option<LogPath>)
    requires
        call_ensures(LogPath::parent, (&path,), res),
    ensures
        path@.len() == 0 || path@.last() == seq![0x2fu8] ==> res is None,
        path@.len() > 0 && path@.last() != seq![0x2fu8] ==> (res matches Some(dir) && dir@
            == path@.drop_last()),
{
}

/// A name read inside a directory lies in that directory.
pub proof fn directory_of_a_name(dir: LogPath, name: &[u8], path: LogPath, res: Option<LogPath>)
    requires
        call_ensures(LogPath::join, (&dir, name), path),
        call_ensures(LogPath::parent, (&path,), res),
        name@.len() > 0,
        name@ != seq![0x2eu8],
        forall|i: int| 0 <= i < name@.len() ==> name@[i] != 0x2fu8,
    ensures
        path@ == dir@.push(name@),
        res matches Some(found) && found@ == dir@,
{
    names_single(name@);
    if name@.len() == 1 && name@[0] == DOT {
        assert(name@ =~= seq![0x2eu8]);
    }
    assert(path@ =~= dir@.push(name@));
    assert(path@.drop_last() =~= dir@);
    assert(name@ != seq![0x2fu8]) by {
        assert(seq![0x2fu8][0] == 0x2fu8);
    }
}

/// Bytes are appended behind those that are there.
pub proof fn bytes_are_appended(to: &mut Vec<u8>, more: &[u8])
    requires
        call_ensures(append_bytes, (to, more), ()),
    ensures
        final(to)@.len() == old(to)@.len() + more@.len(),
        final(to)@.take(old(to)@.len() as int) == old(to)@,
        final(to)@.skip(old(to)@.len() as int) == more@,
{
    assert(final(to)@.take(old(to)@.len() as int) =~= old(to)@);
    assert(final(to)@.skip(old(to)@.len() as int) =~= more@);
}

/// Byte strings are the same that have the same bytes, and are ordered by the first byte in which
/// they differ; one that ends there comes first.
pub proof fn bytes_are_ordered(a: &[u8], b: &[u8], k: int, same: bool, before: bool)
    requires
        call_ensures(bytes_equal, (a, b), same),
        call_ensures(bytes_precede, (a, b), before),
        0 <= k <= a@.len(),
        k <= b@.len(),
        a@.take(k) == b@.take(k),
        k < a@.len() && k < b@.len() ==> a@[k] != b@[k],
    ensures
        same <==> k == a@.len() && k == b@.len(),
        before <==> k < b@.len() && (k == a@.len() || a@[k] < b@[k]),
{
    let x = a@;
    let y = b@;
    assert forall|i: int| 0 <= i < k implies x[i] == y[i] by {
        assert(x.take(k)[i] == y.take(k)[i]);
    }
    if k == x.len() && k == y.len() {
        assert(x =~= y);
    }
    if k < y.len() && (k == x.len() || x[k] < y[k]) {
        assert(bytes_diverge_at(x, y, k));
    } else if before {
        let j = choose|j: int| bytes_diverge_at(x, y, j);
        assert(j <= k);
    }
}

} // verus!
