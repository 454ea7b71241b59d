//! Paths as sequences of component names, and what the archive rules read
//! from them: prefixes, file extensions and archive entry names.

use vstd::prelude::*;
use vstd::string::*;
use vstd::std_specs::iter::IteratorSpec;

verus! {

/// The index of the last `.` in `name`, if it holds one.
pub open spec fn last_dot(name: Seq<char>) -> Option<int>
    decreases name.len(),
{
    if name.len() == 0 {
        None
    } else if name.last() == '.' {
        Some(name.len() - 1)
    } else {
        last_dot(name.drop_last())
    }
}

/// The extension of a file name: what follows its last `.`, provided that
/// something stands before that `.`. A name without a `.`, a name whose only
/// `.` is its first character, and the name `..` have no extension.
pub open spec fn extension_of(name: Seq<char>) -> Option<Seq<char>> {
    match last_dot(name) {
        Some(i) => if i == 0 || name == seq!['.', '.'] {
            None
        } else {
            Some(name.skip(i + 1))
        },
        None => None,
    }
}

/// The extensions of the files that belong in an archive:
/// `toml`, `lock`, `rs`, `md` and `txt`, in exactly this spelling.
pub open spec fn source_extension(ext: Seq<char>) -> bool {
    ||| ext == seq!['t', 'o', 'm', 'l']
    ||| ext == seq!['l', 'o', 'c', 'k']
    ||| ext == seq!['r', 's']
    ||| ext == seq!['m', 'd']
    ||| ext == seq!['t', 'x', 't']
}

/// A component that names one thing directly below its directory: not
/// empty, neither `.` nor `..`, and without a `/`.
pub open spec fn plain_name(name: Seq<char>) -> bool {
    &&& name.len() > 0
    &&& name != seq!['.']
    &&& name != seq!['.', '.']
    &&& no_slash(name)
}

/// Every component is a plain name.
pub open spec fn plain_names(parts: Seq<Seq<char>>) -> bool {
    forall|i: int| 0 <= i < parts.len() ==> plain_name(#[trigger] parts[i])
}

/// The components joined by `/`.
pub open spec fn joined(parts: Seq<Seq<char>>) -> Seq<char>
    decreases parts.len(),
{
    if parts.len() == 0 {
        Seq::empty()
    } else if parts.len() == 1 {
        parts[0]
    } else {
        joined(parts.drop_last()) + seq!['/'] + parts.last()
    }
}

/// Where `last_dot` finds a `.`, it is the last one; where it finds none,
/// the name holds none.
pub proof fn lemma_last_dot(name: Seq<char>)
    ensures
        match last_dot(name) {
            Some(i) => {
                &&& 0 <= i < name.len()
                &&& name[i] == '.'
                &&& forall|j: int| i < j < name.len() ==> name[j] != '.'
            },
            None => forall|j: int| 0 <= j < name.len() ==> name[j] != '.',
        },
    decreases name.len(),
{
    if name.len() > 0 && name.last() != '.' {
        let front = name.drop_last();
        lemma_last_dot(front);
        assert forall|j: int| 0 <= j < front.len() implies front[j] == name[j] by {}
        match last_dot(front) {
            Some(i) => {
                assert(name[i] == front[i]);
                assert forall|j: int| i < j < name.len() implies name[j] != '.' by {
                    if j < front.len() {
                        assert(front[j] == name[j]);
                    }
                }
            },
            None => {
                assert forall|j: int| 0 <= j < name.len() implies name[j] != '.' by {
                    if j < front.len() {
                        assert(front[j] == name[j]);
                    }
                }
            },
        }
    }
}

/// A name has the extension `ext` exactly if it is a non-empty stem, a `.`
/// and `ext`, where `ext` holds no `.` (and the name is not `..`).
pub proof fn lemma_extension_splits(name: Seq<char>, ext: Seq<char>)
    ensures
        extension_of(name) == Some(ext) <==> {
            &&& name != seq!['.', '.']
            &&& name.len() >= ext.len() + 2
            &&& name.skip(name.len() - ext.len()) == ext
            &&& name[name.len() - ext.len() - 1] == '.'
            &&& forall|j: int| 0 <= j < ext.len() ==> ext[j] != '.'
        },
{
    lemma_last_dot(name);
    let split = name.len() - ext.len() - 1;
    if extension_of(name) == Some(ext) {
        let i = last_dot(name)->0;
        assert(name.skip(i + 1).len() == name.len() - i - 1);
        assert(i == split);
        assert(name.skip(name.len() - ext.len()) == ext);
        assert forall|j: int| 0 <= j < ext.len() implies ext[j] != '.' by {
            assert(ext[j] == name[i + 1 + j]);
        }
    }
    if name != seq!['.', '.'] && name.len() >= ext.len() + 2 && name.skip(name.len() - ext.len())
        == ext && name[split] == '.' && (forall|j: int| 0 <= j < ext.len() ==> ext[j] != '.') {
        match last_dot(name) {
            Some(i) => {
                if i > split {
                    assert(ext[i - split - 1] == name[i]);
                }
                assert(i == split);
            },
            None => {},
        }
    }
}

/// The pieces of an entry name between its `/` characters. A name without
/// `/` is one piece, and so is the empty name.
pub open spec fn segments(name: Seq<char>) -> Seq<Seq<char>>
    decreases name.len(),
{
    if name.len() == 0 {
        seq![Seq::<char>::empty()]
    } else if name.last() == '/' {
        segments(name.drop_last()).push(Seq::<char>::empty())
    } else {
        let before = segments(name.drop_last());
        before.drop_last().push(before.last().push(name.last()))
    }
}

/// The name holds no `/`.
pub open spec fn no_slash(name: Seq<char>) -> bool {
    forall|j: int| 0 <= j < name.len() ==> name[j] != '/'
}

/// No component holds a `/`.
pub open spec fn slash_free(parts: Seq<Seq<char>>) -> bool {
    forall|i: int| 0 <= i < parts.len() ==> no_slash(#[trigger] parts[i])
}

/// A name always has at least one segment.
proof fn lemma_segments_nonempty(name: Seq<char>)
    ensures
        segments(name).len() >= 1,
    decreases name.len(),
{
    if name.len() > 0 {
        lemma_segments_nonempty(name.drop_last());
    }
}

/// Text without `/` that is added to a name goes to the name's last segment.
proof fn lemma_segments_grow(name: Seq<char>, more: Seq<char>)
    requires
        no_slash(more),
    ensures
        segments(name + more) == segments(name).drop_last().push(segments(name).last() + more),
    decreases more.len(),
{
    lemma_segments_nonempty(name);
    let pieces = segments(name);
    if more.len() == 0 {
        assert(name + more =~= name);
        assert(pieces.last() + more =~= pieces.last());
        assert(pieces.drop_last().push(pieces.last()) =~= pieces);
    } else {
        let shorter = more.drop_last();
        assert forall|j: int| 0 <= j < shorter.len() implies shorter[j] != '/' by {
            assert(shorter[j] == more[j]);
        }
        lemma_segments_grow(name, shorter);
        let whole = name + more;
        assert(whole.drop_last() =~= name + shorter);
        assert(whole.last() == more.last());
        let before = segments(name + shorter);
        assert(before.last() == pieces.last() + shorter);
        assert(before.drop_last() =~= pieces.drop_last());
        assert((pieces.last() + shorter).push(more.last()) =~= pieces.last() + more);
    }
}

/// An entry name splits at its slashes into exactly the components that it
/// was joined from. So the name holds no segment that none of the
/// components is, and different paths get different names.
pub proof fn lemma_segments_of_joined(parts: Seq<Seq<char>>)
    requires
        parts.len() > 0,
        slash_free(parts),
    ensures
        segments(joined(parts)) == parts,
    decreases parts.len(),
{
    let empty = Seq::<char>::empty();
    if parts.len() == 1 {
        assert(no_slash(parts[0]));
        lemma_segments_grow(empty, parts[0]);
        assert(empty + parts[0] =~= parts[0]);
        assert(segments(empty) =~= seq![empty]);
        assert(seq![empty].drop_last().push(empty + parts[0]) =~= parts);
    } else {
        let front = parts.drop_last();
        assert forall|i: int| 0 <= i < front.len() implies no_slash(#[trigger] front[i]) by {
            assert(front[i] == parts[i]);
        }
        lemma_segments_of_joined(front);
        let opened = joined(front) + seq!['/'];
        assert(opened.drop_last() =~= joined(front));
        assert(opened.last() == '/');
        assert(segments(opened) == front.push(empty));
        assert(no_slash(parts[parts.len() - 1]));
        lemma_segments_grow(opened, parts.last());
        assert(front.push(empty).drop_last() =~= front);
        assert(empty + parts.last() =~= parts.last());
        assert(front.push(parts.last()) =~= parts);
    }
}

/// Plain names hold no `/`.
pub proof fn lemma_plain_names_slash_free(parts: Seq<Seq<char>>)
    requires
        plain_names(parts),
    ensures
        slash_free(parts),
{
    assert forall|i: int| 0 <= i < parts.len() implies no_slash(#[trigger] parts[i]) by {
        assert(plain_name(parts[i]));
    }
}

/// Two paths of plain names with the same entry name are the same path.
pub proof fn lemma_entry_names_differ(first: Seq<Seq<char>>, second: Seq<Seq<char>>)
    requires
        first.len() > 0,
        second.len() > 0,
        plain_names(first),
        plain_names(second),
    ensures
        joined(first) == joined(second) ==> first == second,
{
    lemma_plain_names_slash_free(first);
    lemma_plain_names_slash_free(second);
    lemma_segments_of_joined(first);
    lemma_segments_of_joined(second);
}

/// A path: the names of its components, outermost first.
pub struct EntryPath {
    pub parts: Vec<String>,
}

impl View for EntryPath {
    type V = Seq<Seq<char>>;

    open spec fn view(&self) -> Seq<Seq<char>> {
        Seq::new(self.parts@.len(), |i: int| self.parts@[i]@)
    }
}

/// Whether two string slices hold the same text.
pub fn same_text(a: &str, b: &str) -> (res: bool)
    ensures
        res == (a@ == b@),
{
    let mut left = a.chars();
    let mut right = b.chars();
    let ghost mut seen: int = 0;
    assert(a@.take(0) =~= b@.take(0));
    loop
        invariant
            0 <= seen <= a@.len(),
            seen <= b@.len(),
            left.remaining() == a@.skip(seen),
            right.remaining() == b@.skip(seen),
            a@.take(seen) == b@.take(seen),
        decreases a@.len() - seen,
    {
        let x = left.next();
        let y = right.next();
        match x {
            Some(c) => {
                match y {
                    Some(d) => {
                        if c != d {
                            assert(a@[seen] != b@[seen]);
                            return false;
                        }
                        proof {
                            assert(a@.skip(seen).drop_first() =~= a@.skip(seen + 1));
                            assert(b@.skip(seen).drop_first() =~= b@.skip(seen + 1));
                            assert(a@.take(seen + 1) =~= a@.take(seen).push(c));
                            assert(b@.take(seen + 1) =~= b@.take(seen).push(d));
                            seen = seen + 1;
                        }
                    },
                    None => {
                        assert(b@.len() == seen);
                        return false;
                    },
                }
            },
            None => {
                assert(a@.len() == seen);
                proof {
                    if y is None {
                        assert(a@.take(seen) =~= a@);
                        assert(b@.take(seen) =~= b@);
                    }
                }
                return y.is_none();
            },
        }
    }
}

/// The position of the last `.` of `name`, and the number of its characters.
fn find_last_dot(name: &str) -> (res: (Option<usize>, usize))
    ensures
        res.1 == name@.len(),
        match res.0 {
            Some(i) => last_dot(name@) == Some(i as int),
            None => last_dot(name@) is None,
        },
{
    let length = name.unicode_len();
    let mut chars = name.chars();
    let mut index: usize = 0;
    let mut found: Option<usize> = None;
    assert(name@.take(0) =~= Seq::<char>::empty());
    loop
        invariant
            length == name@.len(),
            index <= name@.len(),
            chars.remaining() == name@.skip(index as int),
            match found {
                Some(i) => last_dot(name@.take(index as int)) == Some(i as int),
                None => last_dot(name@.take(index as int)) is None,
            },
        ensures
            index == name@.len(),
            match found {
                Some(i) => last_dot(name@) == Some(i as int),
                None => last_dot(name@) is None,
            },
        decreases name@.len() - index,
    {
        match chars.next() {
            Some(c) => {
                proof {
                    let before = name@.take(index as int);
                    let after = name@.take(index as int + 1);
                    assert(after.drop_last() =~= before);
                    assert(after.last() == c);
                    assert(name@.skip(index as int).drop_first() =~= name@.skip(index as int + 1));
                }
                if c == '.' {
                    found = Some(index);
                }
                index = index + 1;
            },
            None => {
                assert(name@.take(index as int) =~= name@);
                break ;
            },
        }
    }
    (found, index)
}

/// The extension of a file name, as `Path::extension` of the standard
/// library reads it from a path's last component.
pub fn extension(name: &str) -> (res: Option<String>)
    ensures
        match res {
            Some(ext) => extension_of(name@) == Some(ext@),
            None => extension_of(name@) is None,
        },
{
    let (dot, length) = find_last_dot(name);
    match dot {
        Some(i) => {
            proof {
                lemma_last_dot(name@);
            }
            if i == 0 {
                return None;
            }
            if length == 2 && name.get_char(0) == '.' {
                assert(name@ =~= seq!['.', '.']);
                return None;
            }
            proof {
                if name@ == seq!['.', '.'] {
                    assert(name@.len() == 2);
                    assert(name@[0] == '.');
                }
            }
            let tail = name.substring_char(i + 1, length);
            assert(tail@ =~= name@.skip(i as int + 1));
            Some(String::from_str(tail))
        },
        None => None,
    }
}

/// Whether `ext` is one of the extensions that belong in an archive.
pub fn is_source_extension(ext: &str) -> (res: bool)
    ensures
        res == source_extension(ext@),
{
    proof {
        reveal_strlit("toml");
        reveal_strlit("lock");
        reveal_strlit("rs");
        reveal_strlit("md");
        reveal_strlit("txt");
        assert("toml"@ =~= seq!['t', 'o', 'm', 'l']);
        assert("lock"@ =~= seq!['l', 'o', 'c', 'k']);
        assert("rs"@ =~= seq!['r', 's']);
        assert("md"@ =~= seq!['m', 'd']);
        assert("txt"@ =~= seq!['t', 'x', 't']);
    }
    same_text(ext, "toml") || same_text(ext, "lock") || same_text(ext, "rs") || same_text(
        ext,
        "md",
    ) || same_text(ext, "txt")
}

/// Whether `name` is a plain component name.
pub fn is_plain_name(name: &str) -> (res: bool)
    ensures
        res == plain_name(name@),
{
    proof {
        reveal_strlit(".");
        reveal_strlit("..");
        assert("."@ =~= seq!['.']);
        assert(".."@ =~= seq!['.', '.']);
    }
    if same_text(name, ".") || same_text(name, "..") {
        return false;
    }
    let mut chars = name.chars();
    let ghost mut seen: int = 0;
    loop
        invariant
            0 <= seen <= name@.len(),
            chars.remaining() == name@.skip(seen),
            name@ != seq!['.'],
            name@ != seq!['.', '.'],
            forall|i: int| 0 <= i < seen ==> name@[i] != '/',
        decreases name@.len() - seen,
    {
        match chars.next() {
            Some(c) => {
                if c == '/' {
                    assert(name@[seen] == c);
                    return false;
                }
                proof {
                    assert(name@.skip(seen).drop_first() =~= name@.skip(seen + 1));
                    seen = seen + 1;
                }
            },
            None => {
                assert(seen == name@.len());
                return !name.is_empty();
            },
        }
    }
}

impl EntryPath {
    /// The path made of the given components.
    pub fn new(parts: Vec<String>) -> (path: EntryPath)
        ensures
            path.parts == parts,
    {
        EntryPath { parts }
    }

    /// The number of components.
    pub fn len(&self) -> (n: usize)
        ensures
            n == self@.len(),
    {
        self.parts.len()
    }

    /// Whether both paths have the same components.
    pub fn same_as(&self, other: &EntryPath) -> (res: bool)
        ensures
            res == (self@ == other@),
    {
        if self.parts.len() != other.parts.len() {
            assert(self@.len() != other@.len());
            return false;
        }
        let mut i: usize = 0;
        while i < self.parts.len()
            invariant
                i <= self.parts@.len(),
                self.parts@.len() == other.parts@.len(),
                forall|j: int| 0 <= j < i ==> self@[j] == other@[j],
            decreases self.parts@.len() - i,
        {
            if !same_text(self.parts[i].as_str(), other.parts[i].as_str()) {
                assert(self@[i as int] != other@[i as int]);
                return false;
            }
            i = i + 1;
        }
        assert(self@ =~= other@);
        true
    }

    /// The path below `base`: what is left of `self` once the components of
    /// `base` are taken from its front. `None` where `self` does not start
    /// with all of them.
    pub fn strip_prefix(&self, base: &EntryPath) -> (res: Option<EntryPath>)
        ensures
            res is Some <==> base@.is_prefix_of(self@),
            res matches Some(rest) ==> rest@ == self@.skip(base@.len() as int),
    {
        if base.parts.len() > self.parts.len() {
            return None;
        }
        let mut i: usize = 0;
        while i < base.parts.len()
            invariant
                i <= base.parts@.len(),
                base.parts@.len() <= self.parts@.len(),
                forall|j: int| 0 <= j < i ==> self@[j] == base@[j],
            decreases base.parts@.len() - i,
        {
            if !same_text(self.parts[i].as_str(), base.parts[i].as_str()) {
                assert(self@.subrange(0, base@.len() as int)[i as int] != base@[i as int]);
                return None;
            }
            i = i + 1;
        }
        assert(base@ =~= self@.subrange(0, base@.len() as int));
        let mut rest: Vec<String> = Vec::new();
        let mut k: usize = base.parts.len();
        while k < self.parts.len()
            invariant
                base.parts@.len() <= k <= self.parts@.len(),
                rest@.len() == k - base.parts@.len(),
                forall|j: int| 0 <= j < rest@.len() ==> rest@[j]@ == self@[base.parts@.len() + j],
            decreases self.parts@.len() - k,
        {
            rest.push(self.parts[k].clone());
            k = k + 1;
        }
        let stripped = EntryPath { parts: rest };
        assert(stripped@ =~= self@.skip(base@.len() as int));
        Some(stripped)
    }

    /// Whether the first component is `name`.
    pub fn starts_with(&self, name: &str) -> (res: bool)
        ensures
            res == (self@.len() > 0 && self@[0] == name@),
    {
        self.parts.len() > 0 && same_text(self.parts[0].as_str(), name)
    }

    /// The path without its last component; `None` for the empty path.
    pub fn parent(&self) -> (res: Option<EntryPath>)
        ensures
            res is Some <==> self@.len() > 0,
            res matches Some(up) ==> up@ == self@.drop_last(),
    {
        if self.parts.len() == 0 {
            return None;
        }
        let mut up: Vec<String> = Vec::new();
        let kept = self.parts.len() - 1;
        let mut k: usize = 0;
        while k < kept
            invariant
                kept == self.parts@.len() - 1,
                k <= kept,
                up@.len() == k,
                forall|j: int| 0 <= j < k ==> up@[j]@ == self@[j],
            decreases self.parts@.len() - k,
        {
            up.push(self.parts[k].clone());
            k = k + 1;
        }
        let parent = EntryPath { parts: up };
        assert(parent@ =~= self@.drop_last());
        Some(parent)
    }

    /// The path with `name` added as its last component.
    pub fn join(&self, name: &str) -> (res: EntryPath)
        ensures
            res@ == self@.push(name@),
    {
        let mut parts: Vec<String> = Vec::new();
        let mut k: usize = 0;
        while k < self.parts.len()
            invariant
                k <= self.parts@.len(),
                parts@.len() == k,
                forall|j: int| 0 <= j < k ==> parts@[j]@ == self@[j],
            decreases self.parts@.len() - k,
        {
            parts.push(self.parts[k].clone());
            k = k + 1;
        }
        parts.push(String::from_str(name));
        let longer = EntryPath { parts };
        assert(longer@ =~= self@.push(name@));
        longer
    }

    /// The extension of the last component.
    pub fn extension(&self) -> (res: Option<String>)
        ensures
            match res {
                Some(ext) => self@.len() > 0 && extension_of(self@.last()) == Some(ext@),
                None => self@.len() == 0 || extension_of(self@.last()) is None,
            },
    {
        if self.parts.len() == 0 {
            return None;
        }
        extension(self.parts[self.parts.len() - 1].as_str())
    }

    /// Whether every component is a plain name.
    pub fn is_plain(&self) -> (res: bool)
        ensures
            res == plain_names(self@),
    {
        let mut k: usize = 0;
        while k < self.parts.len()
            invariant
                k <= self.parts@.len(),
                forall|j: int| 0 <= j < k ==> plain_name(#[trigger] self@[j]),
            decreases self.parts@.len() - k,
        {
            if !is_plain_name(self.parts[k].as_str()) {
                assert(!plain_name(self@[k as int]));
                return false;
            }
            k = k + 1;
        }
        true
    }

    /// The name under which the path stands in an archive: its components
    /// joined by `/`, whatever separator the host uses.
    pub fn archive_name(&self) -> (name: String)
        ensures
            name@ == joined(self@),
    {
        let mut name = String::new();
        let mut k: usize = 0;
        assert(self@.take(0) =~= Seq::<Seq<char>>::empty());
        while k < self.parts.len()
            invariant
                k <= self.parts@.len(),
                name@ == joined(self@.take(k as int)),
            decreases self.parts@.len() - k,
        {
            proof {
                reveal_strlit("/");
                assert("/"@ =~= seq!['/']);
                let before = self@.take(k as int);
                let after = self@.take(k as int + 1);
                assert(after.drop_last() =~= before);
                assert(after.last() == self@[k as int]);
                if k == 0 {
                    assert(name@ + self@[0] =~= self@[0]);
                }
            }
            if k > 0 {
                name.append("/");
            }
            name.append(self.parts[k].as_str());
            k = k + 1;
        }
        assert(self@.take(k as int) =~= self@);
        name
    }
}

} // verus!
