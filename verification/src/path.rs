//! Paths as the library sees them: a sequence of components.
//!
//! Two spellings name the same path when they have the same components: doubled separators and
//! inner `.` components make no difference.
use crate::order::{
    bytes_equal, bytes_precede, current_part, parent_part, part_lt, part_lt_irreflexive, part_rank,
    path_lt, paths_diverge_at, root_part, Parts,
};
use vstd::prelude::*;

verus! {

/// The byte that separates components, `/`.
pub const SEPARATOR: u8 = 0x2f;

/// The byte that separates the extension from the rest of a file name, `.`.
pub const DOT: u8 = 0x2e;

/// Where the text behind the last separator begins.
pub open spec fn tail_start(text: Seq<u8>) -> int
    decreases text.len(),
{
    if text.len() == 0 {
        0
    } else if text.last() == SEPARATOR {
        text.len() as int
    } else {
        tail_start(text.drop_last())
    }
}

/// Whether a stretch of text between separators counts as a component.
pub open spec fn is_name(segment: Seq<u8>) -> bool {
    segment.len() > 0 && segment != current_part()
}

/// The stretches between separators that count as components.
pub open spec fn names(text: Seq<u8>) -> Parts
    decreases text.len(),
{
    proof {
        tail_start_bounds(text);
    }
    let start = tail_start(text);
    let before = if start > 0 {
        names(text.take(start - 1))
    } else {
        Seq::empty()
    };
    if is_name(text.skip(start)) {
        before.push(text.skip(start))
    } else {
        before
    }
}

/// What stands before the names: the root, the current directory or nothing.
pub open spec fn anchor(text: Seq<u8>) -> Parts {
    if text.len() > 0 && text[0] == SEPARATOR {
        seq![root_part()]
    } else if text.len() > 0 && text[0] == DOT && (text.len() == 1 || text[1] == SEPARATOR) {
        seq![current_part()]
    } else {
        Seq::empty()
    }
}

/// The components of a path spelled as `text`.
pub open spec fn components(text: Seq<u8>) -> Parts {
    anchor(text) + names(text)
}

/// Whether these can be the components of a path.
pub open spec fn is_path(parts: Parts) -> bool {
    forall|i: int|
        #![trigger parts[i]]
        0 <= i < parts.len() ==> {
            ||| i == 0 && parts[i] == root_part()
            ||| i == 0 && parts[i] == current_part()
            ||| is_name(parts[i]) && !parts[i].contains(SEPARATOR)
        }
}

/// The shortest spelling of a path.
pub open spec fn spelling(parts: Parts) -> Seq<u8>
    decreases parts.len(),
{
    if parts.len() == 0 {
        Seq::empty()
    } else if parts.len() == 1 {
        parts[0]
    } else if parts.len() == 2 && parts[0] == root_part() {
        parts[0] + parts[1]
    } else {
        spelling(parts.drop_last()).push(SEPARATOR) + parts.last()
    }
}

/// The path that `text` names when it is read inside the directory `dir`.
pub open spec fn joined(dir: Parts, text: Seq<u8>) -> Parts {
    if dir.len() == 0 || (text.len() > 0 && text[0] == SEPARATOR) {
        components(text)
    } else {
        dir + names(text)
    }
}

/// The last component, where it is a name.
pub open spec fn file_name(parts: Parts) -> Option<Seq<u8>> {
    if parts.len() > 0 && part_rank(parts.last()) == 3 {
        Some(parts.last())
    } else {
        None
    }
}

/// The position of the last dot, or -1.
pub open spec fn last_dot(name: Seq<u8>) -> int
    decreases name.len(),
{
    if name.len() == 0 {
        -1
    } else if name.last() == DOT {
        name.len() - 1
    } else {
        last_dot(name.drop_last())
    }
}

/// What stands behind the last dot of the file name; a leading dot does not count.
pub open spec fn extension(parts: Parts) -> Option<Seq<u8>> {
    match file_name(parts) {
        Some(name) => if last_dot(name) > 0 {
            Some(name.skip(last_dot(name) + 1))
        } else {
            None
        },
        None => None,
    }
}

/// The file name without its extension.
pub open spec fn stem(name: Seq<u8>) -> Seq<u8> {
    if last_dot(name) > 0 {
        name.take(last_dot(name))
    } else {
        name
    }
}

/// The path with the extension of its file name replaced, or added where it had none.
pub open spec fn with_extension(parts: Parts, ext: Seq<u8>) -> Parts {
    match file_name(parts) {
        Some(name) => parts.drop_last().push(stem(name).push(DOT) + ext),
        None => parts,
    }
}

/// The directory that holds the path.
pub open spec fn parent(parts: Parts) -> Option<Parts> {
    if parts.len() > 0 && parts.last() != root_part() {
        Some(parts.drop_last())
    } else {
        None
    }
}

/// The text behind the last separator holds none, and a separator stands before it.
pub proof fn tail_start_bounds(text: Seq<u8>)
    ensures
        0 <= tail_start(text) <= text.len(),
        tail_start(text) > 0 ==> text[tail_start(text) - 1] == SEPARATOR,
        forall|i: int| tail_start(text) <= i < text.len() ==> text[i] != SEPARATOR,
    decreases text.len(),
{
    if text.len() > 0 && text.last() != SEPARATOR {
        let rest = text.drop_last();
        tail_start_bounds(rest);
        assert forall|i: int| tail_start(text) <= i < text.len() implies text[i] != SEPARATOR by {
            if i < rest.len() {
                assert(rest[i] != SEPARATOR);
            }
        }
    }
}

/// The place behind the last separator is the only one with its two properties.
proof fn tail_start_unique(text: Seq<u8>, start: int)
    requires
        0 <= start <= text.len(),
        start > 0 ==> text[start - 1] == SEPARATOR,
        forall|i: int| start <= i < text.len() ==> text[i] != SEPARATOR,
    ensures
        tail_start(text) == start,
{
    tail_start_bounds(text);
    let s = tail_start(text);
    if s < start {
        assert(text[start - 1] != SEPARATOR);
    } else if start < s {
        assert(text[s - 1] != SEPARATOR);
    }
}

/// A separator splits the names of a text.
pub proof fn names_split(before: Seq<u8>, after: Seq<u8>)
    ensures
        names(before.push(SEPARATOR) + after) == names(before) + names(after),
    decreases after.len(),
{
    let text = before.push(SEPARATOR) + after;
    tail_start_bounds(after);
    let s = tail_start(after);
    let start = before.len() + 1 + s;
    assert(text[before.len() as int] == SEPARATOR);
    assert forall|i: int| start <= i < text.len() implies text[i] != SEPARATOR by {
        assert(text[i] == after[i - before.len() - 1]);
    }
    if s > 0 {
        assert(text[start - 1] == after[s - 1]);
    }
    tail_start_unique(text, start);
    assert(text.skip(start) =~= after.skip(s));
    if s > 0 {
        assert(text.take(start - 1) =~= before.push(SEPARATOR) + after.take(s - 1));
        names_split(before, after.take(s - 1));
    } else {
        assert(text.take(start - 1) =~= before);
    }
    assert(names(text) =~= names(before) + names(after));
}

/// A text without a separator is one name or none.
pub proof fn names_single(text: Seq<u8>)
    requires
        !text.contains(SEPARATOR),
    ensures
        names(text) == if is_name(text) {
            seq![text]
        } else {
            Seq::empty()
        },
{
    assert forall|i: int| 0 <= i < text.len() implies text[i] != SEPARATOR by {
        assert(text.contains(text[i]));
    }
    tail_start_unique(text, 0);
    assert(text.skip(0) =~= text);
    assert(names(text) =~= if is_name(text) {
        seq![text]
    } else {
        Seq::empty()
    });
}

/// Names are components that may stand anywhere in a path.
proof fn names_are_names(text: Seq<u8>)
    ensures
        forall|i: int|
            0 <= i < names(text).len() ==> is_name(#[trigger] names(text)[i])
                && !names(text)[i].contains(SEPARATOR),
    decreases text.len(),
{
    tail_start_bounds(text);
    let start = tail_start(text);
    let before = if start > 0 {
        names(text.take(start - 1))
    } else {
        Seq::empty()
    };
    if start > 0 {
        names_are_names(text.take(start - 1));
    }
    let tail = text.skip(start);
    assert forall|i: int| 0 <= i < tail.len() implies tail[i] != SEPARATOR by {
        assert(tail[i] == text[start + i]);
    }
    assert forall|i: int| 0 <= i < names(text).len() implies is_name(#[trigger] names(text)[i])
        && !names(text)[i].contains(SEPARATOR) by {
        if i < before.len() {
            assert(names(text)[i] == before[i]);
        } else {
            assert(names(text)[i] == tail);
        }
    }
}

/// The last dot lies inside the name, and none follows it.
pub proof fn last_dot_bounds(name: Seq<u8>)
    ensures
        -1 <= last_dot(name) < name.len(),
        last_dot(name) >= 0 ==> name[last_dot(name)] == DOT,
        forall|i: int| last_dot(name) < i < name.len() ==> name[i] != DOT,
    decreases name.len(),
{
    if name.len() > 0 && name.last() != DOT {
        let rest = name.drop_last();
        last_dot_bounds(rest);
        assert forall|i: int| last_dot(name) < i < name.len() implies name[i] != DOT by {
            if i < rest.len() {
                assert(rest[i] != DOT);
            }
        }
    }
}

/// The last dot is the only one that no other follows.
pub proof fn last_dot_unique(name: Seq<u8>, dot: int)
    requires
        0 <= dot < name.len(),
        name[dot] == DOT,
        forall|i: int| dot < i < name.len() ==> name[i] != DOT,
    ensures
        last_dot(name) == dot,
{
    last_dot_bounds(name);
    let d = last_dot(name);
    if d < dot {
        assert(name[dot] != DOT);
    } else if dot < d {
        assert(name[d] != DOT);
    }
}

/// The components behind the anchor.
spec fn behind_anchor(parts: Parts) -> Parts {
    if parts.len() > 0 && (parts[0] == root_part() || parts[0] == current_part()) {
        parts.skip(1)
    } else {
        parts
    }
}

proof fn spelling_parses(parts: Parts)
    requires
        is_path(parts),
    ensures
        names(spelling(parts)) == behind_anchor(parts),
        anchor(spelling(parts)) == parts.take(parts.len() - behind_anchor(parts).len()),
        parts.len() > 0 ==> spelling(parts).len() > 0,
    decreases parts.len(),
{
    let text = spelling(parts);
    if parts.len() == 0 {
        names_single(text);
        assert(behind_anchor(parts) =~= names(text));
        assert(anchor(text) =~= parts.take(0));
    } else if parts.len() == 1 {
        if parts[0] == root_part() {
            assert(text =~= Seq::<u8>::empty().push(SEPARATOR) + Seq::<u8>::empty());
            names_split(Seq::empty(), Seq::empty());
            names_single(Seq::empty());
        } else {
            assert(!text.contains(SEPARATOR)) by {
                if parts[0] == current_part() {
                    assert(forall|i: int| 0 <= i < text.len() ==> text[i] == DOT);
                }
            }
            names_single(text);
            if parts[0] != current_part() {
                assert(text[0] != SEPARATOR) by {
                    assert(text.contains(text[0]));
                }
                if text.len() > 1 {
                    assert(text.contains(text[1]));
                } else if text[0] == DOT {
                    assert(text =~= current_part());
                }
            }
        }
        assert(names(text) =~= behind_anchor(parts));
        assert(anchor(text) =~= parts.take(parts.len() - behind_anchor(parts).len()));
    } else if parts.len() == 2 && parts[0] == root_part() {
        let name = parts[1];
        assert(text =~= Seq::<u8>::empty().push(SEPARATOR) + name);
        names_split(Seq::empty(), name);
        names_single(Seq::empty());
        names_single(name);
        assert(names(text) =~= behind_anchor(parts));
        assert(anchor(text) =~= parts.take(1));
    } else {
        let rest = parts.drop_last();
        let name = parts.last();
        assert(is_path(rest)) by {
            assert forall|i: int| #![trigger rest[i]] 0 <= i < rest.len() implies {
                ||| i == 0 && rest[i] == root_part()
                ||| i == 0 && rest[i] == current_part()
                ||| is_name(rest[i]) && !rest[i].contains(SEPARATOR)
            } by {
                assert(rest[i] == parts[i]);
            }
        }
        spelling_parses(rest);
        names_split(spelling(rest), name);
        names_single(name);
        assert(names(text) =~= behind_anchor(parts));
        assert(anchor(text) =~= anchor(spelling(rest)));
        assert(anchor(text) =~= parts.take(parts.len() - behind_anchor(parts).len()));
    }
}

/// The spelling of a path names that path.
pub proof fn spelling_names_path(parts: Parts)
    requires
        is_path(parts),
    ensures
        components(spelling(parts)) == parts,
{
    spelling_parses(parts);
    assert(components(spelling(parts)) =~= parts);
}

/// To join is to write the text behind the directory and a separator.
pub proof fn joined_is_spelled_behind(dir: Parts, text: Seq<u8>)
    requires
        is_path(dir),
        dir.len() > 0,
        text.len() > 0 ==> text[0] != SEPARATOR,
    ensures
        joined(dir, text) == components(spelling(dir).push(SEPARATOR) + text),
{
    spelling_parses(dir);
    names_split(spelling(dir), text);
    assert(anchor(spelling(dir).push(SEPARATOR) + text) =~= anchor(spelling(dir)));
    assert(joined(dir, text) =~= components(spelling(dir).push(SEPARATOR) + text));
}

/// The directory that a file has whose name is `prefix` and more, read inside `dir`.
pub open spec fn prefix_directory(dir: Parts, prefix: Seq<u8>) -> Parts {
    let start = tail_start(prefix);
    let inner = if start > 0 {
        names(prefix.take(start - 1))
    } else {
        Seq::empty()
    };
    if prefix.len() > 0 && prefix[0] == SEPARATOR {
        seq![root_part()] + inner
    } else if dir.len() == 0 && prefix.len() > 1 && prefix[0] == DOT && prefix[1] == SEPARATOR {
        seq![current_part()] + inner
    } else {
        dir + inner
    }
}

/// A name that is a prefix and more text without a separator ends in that text; the directory
/// depends on the prefix alone.
pub proof fn joined_ends_with(dir: Parts, prefix: Seq<u8>, rest: Seq<u8>)
    requires
        rest.len() > 1,
        !rest.contains(SEPARATOR),
    ensures
        joined(dir, prefix + rest) == prefix_directory(dir, prefix).push(
            prefix.skip(tail_start(prefix)) + rest,
        ),
{
    let text = prefix + rest;
    let start = tail_start(prefix);
    tail_start_bounds(prefix);
    assert forall|i: int| 0 <= i < rest.len() implies rest[i] != SEPARATOR by {
        assert(rest.contains(rest[i]));
    }
    assert forall|i: int| start <= i < text.len() implies text[i] != SEPARATOR by {
        if i < prefix.len() {
            assert(text[i] == prefix[i]);
        } else {
            assert(text[i] == rest[i - prefix.len()]);
        }
    }
    if start > 0 {
        assert(text[start - 1] == prefix[start - 1]);
        assert(text.take(start - 1) =~= prefix.take(start - 1));
    }
    tail_start_unique(text, start);
    assert(text.skip(start) =~= prefix.skip(start) + rest);
    assert(text.skip(start).len() > 1 && current_part().len() == 1);
    if prefix.len() == 0 {
        assert(text[0] == rest[0] && text[1] == rest[1]);
    } else {
        assert(text[0] == prefix[0]);
        if prefix.len() == 1 {
            assert(text[1] == rest[0]);
        } else {
            assert(text[1] == prefix[1]);
        }
    }
    assert(joined(dir, text) =~= prefix_directory(dir, prefix).push(prefix.skip(start) + rest));
}

/// A file name with an extension is its stem, a dot and the extension.
pub proof fn name_is_stem_and_extension(parts: Parts)
    requires
        extension(parts) is Some,
    ensures
        parts.last() == stem(parts.last()).push(DOT) + extension(parts)->0,
{
    last_dot_bounds(parts.last());
    assert(parts.last() =~= stem(parts.last()).push(DOT) + extension(parts)->0);
}

/// The components held by a vector of byte vectors.
spec fn parts_of(parts: Seq<Vec<u8>>) -> Parts {
    Seq::new(parts.len(), |i: int| parts[i]@)
}

/// A path, held as its components.
#[derive(Debug)]
pub struct LogPath {
    parts: Vec<Vec<u8>>,
}

impl View for LogPath {
    type V = Parts;

    closed spec fn view(&self) -> Parts {
        parts_of(self.parts@)
    }
}

impl Clone for LogPath {
    fn clone(&self) -> (res: Self)
        ensures
            res@ == self@,
    {
        proof {
            use_type_invariant(self);
        }
        LogPath { parts: copy_parts(&self.parts) }
    }
}

/// A copy of the components.
fn copy_parts(from: &Vec<Vec<u8>>) -> (parts: Vec<Vec<u8>>)
    ensures
        parts_of(parts@) == parts_of(from@),
{
    let mut parts: Vec<Vec<u8>> = Vec::new();
    let mut i: usize = 0;
    while i < from.len()
        invariant
            i <= from@.len(),
            parts@.len() == i,
            forall|j: int| 0 <= j < i ==> (#[trigger] parts@[j])@ == from@[j]@,
        decreases from.len() - i,
    {
        let part = from[i].clone();
        assert(part@ =~= from@[i as int]@);
        parts.push(part);
        i = i + 1;
    }
    assert(parts_of(parts@) =~= parts_of(from@));
    parts
}

/// A copy of the bytes from `from` up to `to`.
fn copy_range(text: &[u8], from: usize, to: usize) -> (res: Vec<u8>)
    requires
        from <= to <= text@.len(),
    ensures
        res@ == text@.subrange(from as int, to as int),
{
    let mut res: Vec<u8> = Vec::new();
    let mut i: usize = from;
    while i < to
        invariant
            from <= i <= to <= text@.len(),
            res@ == text@.subrange(from as int, i as int),
        decreases to - i,
    {
        res.push(text[i]);
        i = i + 1;
        assert(res@ =~= text@.subrange(from as int, i as int));
    }
    res
}

/// Appends the bytes of `more`.
pub fn append_bytes(to: &mut Vec<u8>, more: &[u8])
    ensures
        final(to)@ == old(to)@ + more@,
{
    let mut i: usize = 0;
    assert(to@ =~= old(to)@ + more@.take(0));
    while i < more.len()
        invariant
            i <= more@.len(),
            to@ == old(to)@ + more@.take(i as int),
        decreases more@.len() - i,
    {
        to.push(more[i]);
        i = i + 1;
        assert(to@ =~= old(to)@ + more@.take(i as int));
    }
    assert(more@.take(i as int) =~= more@);
}

/// Appends the names that `text` holds.
fn push_names(parts: &mut Vec<Vec<u8>>, text: &[u8])
    ensures
        parts_of(final(parts)@) == parts_of(old(parts)@) + names(text@),
{
    let ghost before = parts_of(parts@);
    let mut start: usize = 0;
    let mut i: usize = 0;
    let mut done = false;
    assert(parts_of(parts@) =~= before + Seq::<Seq<u8>>::empty());
    while !done
        invariant
            start <= i <= text@.len(),
            start > 0 ==> text@[start - 1] == SEPARATOR,
            forall|j: int| start <= j < i ==> text@[j] != SEPARATOR,
            !done ==> parts_of(parts@) == before + (if start > 0 {
                names(text@.take(start - 1))
            } else {
                Seq::empty()
            }),
            done ==> parts_of(parts@) == before + names(text@),
        decreases text@.len() - i + (if done { 0int } else { 1int }),
    {
        if i == text.len() || text[i] == SEPARATOR {
            let segment = copy_range(text, start, i);
            let dot: [u8; 1] = [DOT];
            let counts = segment.len() > 0 && !bytes_equal(segment.as_slice(), &dot);
            proof {
                let upto = text@.take(i as int);
                tail_start_unique(upto, start as int);
                assert(upto.skip(start as int) =~= segment@);
                if start > 0 {
                    assert(upto.take(start - 1) =~= text@.take(start - 1));
                }
                assert(dot@ =~= current_part());
            }
            let ghost parts_before = parts@;
            if counts {
                parts.push(segment);
                assert(parts_of(parts@) =~= parts_of(parts_before).push(segment@));
            }
            assert(parts_of(parts@) =~= before + names(text@.take(i as int)));
            if i == text.len() {
                assert(text@.take(i as int) =~= text@);
                done = true;
            } else {
                i = i + 1;
                start = i;
            }
        } else {
            i = i + 1;
        }
    }
}

impl LogPath {
    #[verifier::type_invariant]
    spec fn well_formed(&self) -> bool {
        is_path(self@)
    }

    /// The path that `text` spells.
    pub fn from_bytes(text: &[u8]) -> (res: LogPath)
        ensures
            res@ == components(text@),
    {
        let mut parts: Vec<Vec<u8>> = Vec::new();
        if text.len() > 0 {
            if text[0] == SEPARATOR {
                let root: Vec<u8> = vec![SEPARATOR];
                assert(root@ =~= root_part());
                parts.push(root);
            } else if text[0] == DOT && (text.len() == 1 || text[1] == SEPARATOR) {
                let here: Vec<u8> = vec![DOT];
                assert(here@ =~= current_part());
                parts.push(here);
            }
        }
        assert(parts_of(parts@) =~= anchor(text@));
        push_names(&mut parts, text);
        proof {
            names_are_names(text@);
            assert(parts_of(parts@) == components(text@));
        }
        LogPath { parts }
    }

    /// The shortest spelling of the path. Read again, it names the same path.
    pub fn to_bytes(&self) -> (res: Vec<u8>)
        ensures
            res@ == spelling(self@),
            components(res@) == self@,
    {
        proof {
            use_type_invariant(self);
            spelling_names_path(self@);
        }
        let mut res: Vec<u8> = Vec::new();
        let mut i: usize = 0;
        assert(res@ =~= spelling(self@.take(0)));
        while i < self.parts.len()
            invariant
                i <= self.parts@.len(),
                self@.len() == self.parts@.len(),
                res@ == spelling(self@.take(i as int)),
                is_path(self@),
            decreases self.parts.len() - i,
        {
            let root: [u8; 1] = [SEPARATOR];
            assert(root@ =~= root_part());
            assert(self.parts@[0]@ == self@[0]);
            if i > 1 || (i == 1 && !bytes_equal(self.parts[0].as_slice(), &root)) {
                res.push(SEPARATOR);
            }
            append_bytes(&mut res, self.parts[i].as_slice());
            proof {
                let upto = self@.take(i + 1);
                assert(upto.drop_last() =~= self@.take(i as int));
                assert(upto.last() == self.parts@[i as int]@);
                if i == 0 {
                    assert(self@.take(0) =~= Seq::<Seq<u8>>::empty());
                    assert(res@ =~= self@[0]);
                } else if i == 1 && self@[0] == root_part() {
                    assert(self@.take(1)[0] == self@[0]);
                }
                assert(res@ =~= spelling(upto));
            }
            i = i + 1;
        }
        assert(self@.take(i as int) =~= self@);
        res
    }

    /// The path that `text` names when it is read inside this directory.
    pub fn join(&self, text: &[u8]) -> (res: LogPath)
        ensures
            res@ == joined(self@, text@),
    {
        proof {
            use_type_invariant(self);
        }
        if self.parts.len() == 0 || (text.len() > 0 && text[0] == SEPARATOR) {
            return LogPath::from_bytes(text);
        }
        let mut parts = copy_parts(&self.parts);
        push_names(&mut parts, text);
        proof {
            names_are_names(text@);
            let all = parts_of(parts@);
            assert forall|i: int| #![trigger all[i]] 0 <= i < all.len() implies {
                ||| i == 0 && all[i] == root_part()
                ||| i == 0 && all[i] == current_part()
                ||| is_name(all[i]) && !all[i].contains(SEPARATOR)
            } by {
                if i < self@.len() {
                    assert(all[i] == self@[i]);
                } else {
                    assert(all[i] == names(text@)[i - self@.len()]);
                }
            }
        }
        LogPath { parts }
    }

    /// Whether the two are the same path.
    pub fn same_as(&self, other: &LogPath) -> (res: bool)
        ensures
            res == (self@ == other@),
    {
        assert(self@.len() == self.parts@.len());
        assert(other@.len() == other.parts@.len());
        if self.parts.len() != other.parts.len() {
            return false;
        }
        let mut i: usize = 0;
        while i < self.parts.len()
            invariant
                i <= self.parts@.len(),
                self.parts@.len() == other.parts@.len(),
                forall|j: int| 0 <= j < i ==> self@[j] == other@[j],
            decreases self.parts.len() - i,
        {
            assert(self@[i as int] == self.parts@[i as int]@);
            assert(other@[i as int] == other.parts@[i as int]@);
            if !bytes_equal(self.parts[i].as_slice(), other.parts[i].as_slice()) {
                return false;
            }
            i = i + 1;
        }
        assert(self@ =~= other@);
        true
    }

    /// Whether this path is listed before the other.
    pub fn precedes(&self, other: &LogPath) -> (res: bool)
        ensures
            res == path_lt(self@, other@),
    {
        let mut i: usize = 0;
        while i < self.parts.len() && i < other.parts.len() && bytes_equal(
            self.parts[i].as_slice(),
            other.parts[i].as_slice(),
        )
            invariant
                i <= self.parts@.len(),
                i <= other.parts@.len(),
                forall|j: int| 0 <= j < i ==> self@[j] == other@[j],
            decreases self.parts.len() - i,
        {
            assert(self@[i as int] == self.parts@[i as int]@);
            assert(other@[i as int] == other.parts@[i as int]@);
            i = i + 1;
        }
        let res = i < other.parts.len() && (i == self.parts.len() || part_precedes(
            self.parts[i].as_slice(),
            other.parts[i].as_slice(),
        ));
        proof {
            if i < self.parts@.len() && i < other.parts@.len() {
                assert(self@[i as int] == self.parts@[i as int]@);
                assert(other@[i as int] == other.parts@[i as int]@);
            }
            if res {
                assert(paths_diverge_at(self@, other@, i as int));
            } else if path_lt(self@, other@) {
                let k = choose|k: int| paths_diverge_at(self@, other@, k);
                if k < i {
                    part_lt_irreflexive(self@[k]);
                }
            }
        }
        res
    }

    /// The extension of the file name, where it has one.
    pub fn extension(&self) -> (res: Option<Vec<u8>>)
        ensures
            (match res {
                Some(ext) => extension(self@) == Some(ext@),
                None => extension(self@) is None,
            }),
    {
        let count: usize = self.parts.len();
        if count == 0 || rank(self.parts[count - 1].as_slice()) != 3 {
            return None;
        }
        let name = &self.parts[count - 1];
        assert(self@.last() == name@);
        let dot: usize = find_last_dot(name.as_slice());
        if dot == 0 {
            return None;
        }
        let len: usize = name.len();
        let ext = copy_range(name.as_slice(), dot + 1, len);
        assert(ext@ =~= name@.skip(dot + 1));
        Some(ext)
    }

    /// Whether the file name has this extension.
    pub fn has_extension(&self, ext: &[u8]) -> (res: bool)
        ensures
            res == (extension(self@) == Some(ext@)),
    {
        match self.extension() {
            Some(found) => bytes_equal(found.as_slice(), ext),
            None => false,
        }
    }

    /// The path with the extension of its file name replaced, or added where it had none.
    pub fn with_extension(&self, ext: &[u8]) -> (res: LogPath)
        requires
            ext@.len() > 0,
            !ext@.contains(SEPARATOR),
        ensures
            res@ == with_extension(self@, ext@),
    {
        proof {
            use_type_invariant(self);
        }
        let count: usize = self.parts.len();
        if count == 0 || rank(self.parts[count - 1].as_slice()) != 3 {
            return self.clone();
        }
        let mut parts = copy_parts(&self.parts);
        let ghost copied = parts@;
        let old_name = &self.parts[count - 1];
        assert(self@.last() == old_name@);
        let dot: usize = find_last_dot(old_name.as_slice());
        let mut name = copy_range(
            old_name.as_slice(),
            0,
            if dot == 0 {
                old_name.len()
            } else {
                dot
            },
        );
        assert(name@ =~= stem(old_name@));
        name.push(DOT);
        append_bytes(&mut name, ext);
        parts.pop();
        parts.push(name);
        proof {
            let all = parts_of(parts@);
            assert forall|i: int| 0 <= i < count - 1 implies all[i] == self@[i] by {
                assert(parts@[i] == copied[i]);
                assert(parts_of(copied)[i] == copied[i]@);
            }
            assert(all =~= with_extension(self@, ext@));
            last_dot_bounds(old_name@);
            assert(stem(old_name@).len() > 0 && name@.len() > 1 && current_part().len() == 1);
            assert(!name@.contains(SEPARATOR)) by {
                if name@.contains(SEPARATOR) {
                    let k = name@.index_of(SEPARATOR);
                    if k < stem(old_name@).len() {
                        assert(old_name@[k] == SEPARATOR);
                        assert(old_name@.contains(SEPARATOR));
                        assert(self@[count - 1] == old_name@);
                    } else if k > stem(old_name@).len() {
                        assert(ext@[k - stem(old_name@).len() - 1] == SEPARATOR);
                    }
                }
            }
        }
        LogPath { parts }
    }

    /// The directory that holds this path.
    pub fn parent(&self) -> (res: Option<LogPath>)
        ensures
            (match res {
                Some(dir) => parent(self@) == Some(dir@),
                None => parent(self@) is None,
            }),
    {
        proof {
            use_type_invariant(self);
        }
        let count: usize = self.parts.len();
        if count == 0 {
            return None;
        }
        assert(self@.last() == self.parts@[count - 1]@);
        if rank(self.parts[count - 1].as_slice()) == 0 {
            return None;
        }
        let mut parts = copy_parts(&self.parts);
        let ghost copied = parts@;
        parts.pop();
        proof {
            let all = parts_of(parts@);
            assert forall|i: int| 0 <= i < all.len() implies all[i] == self@[i] by {
                assert(parts_of(copied)[i] == copied[i]@);
            }
            assert(all =~= self@.drop_last());
        }
        Some(LogPath { parts })
    }
}

/// The kind of a component.
fn rank(part: &[u8]) -> (res: u8)
    ensures
        res == part_rank(part@),
{
    let root: [u8; 1] = [SEPARATOR];
    let here: [u8; 1] = [DOT];
    let up: [u8; 2] = [DOT, DOT];
    assert(root@ =~= root_part());
    assert(here@ =~= current_part());
    assert(up@ =~= parent_part());
    if bytes_equal(part, &root) {
        0
    } else if bytes_equal(part, &here) {
        1
    } else if bytes_equal(part, &up) {
        2
    } else {
        3
    }
}

/// Whether the component `a` comes before the component `b`.
fn part_precedes(a: &[u8], b: &[u8]) -> (res: bool)
    ensures
        res == part_lt(a@, b@),
{
    let x: u8 = rank(a);
    let y: u8 = rank(b);
    x < y || (x == y && bytes_precede(a, b))
}

/// The position of the last dot that is not the first byte, or 0.
fn find_last_dot(name: &[u8]) -> (res: usize)
    ensures
        res == if last_dot(name@) > 0 {
            last_dot(name@)
        } else {
            0
        },
        res == 0 || res < name@.len(),
{
    proof {
        last_dot_bounds(name@);
    }
    let mut i: usize = name.len();
    while i > 1
        invariant
            i <= name@.len(),
            forall|j: int| i <= j < name@.len() ==> name@[j] != DOT,
            last_dot(name@) < name@.len(),
            last_dot(name@) >= 0 ==> name@[last_dot(name@)] == DOT,
        decreases i,
    {
        if name[i - 1] == DOT {
            proof {
                last_dot_unique(name@, i - 1);
            }
            return i - 1;
        }
        i = i - 1;
    }
    0
}

} // verus!
