//! Paths as sequences of names.
//!
//! A path is held as the list of its components together with a flag that
//! says whether it starts at the filesystem root. Ancestry is then a matter
//! of prefixes, and the parent of a path is the path without its last name.

use vstd::prelude::*;

verus! {

/// The mathematical value of a path: whether it is rooted, and its names.
#[verifier::ext_equal]
pub struct PathModel {
    pub anchored: bool,
    pub names: Seq<Seq<char>>,
}

impl PathModel {
    /// The path without its last name; a path with no names has no parent.
    pub open spec fn parent(self) -> Option<PathModel> {
        if self.names.len() == 0 {
            None
        } else {
            Some(PathModel { anchored: self.anchored, names: self.names.drop_last() })
        }
    }

    /// The first `len` names of the path, under the same root.
    pub open spec fn prefix(self, len: int) -> PathModel {
        PathModel { anchored: self.anchored, names: self.names.take(len) }
    }

    /// `self` lies strictly above `other`: it is a proper prefix of it.
    pub open spec fn is_ancestor_of(self, other: PathModel) -> bool {
        &&& self.names.len() < other.names.len()
        &&& self == other.prefix(self.names.len() as int)
    }

    /// `self` is the directory that directly holds `other`.
    pub open spec fn is_parent_of(self, other: PathModel) -> bool {
        other.parent() == Some(self)
    }

    /// The last name of the path, unless the path has no names or ends in
    /// `.` or `..`.
    pub open spec fn file_name(self) -> Option<Seq<char>> {
        if self.names.len() == 0 {
            None
        } else if is_dot_name(self.names.last()) {
            None
        } else {
            Some(self.names.last())
        }
    }

    /// The path as text: its names with slashes between them, after a slash
    /// where the path starts at the root.
    pub open spec fn render(self) -> Seq<char> {
        if self.anchored {
            seq!['/'] + joined(self.names)
        } else {
            joined(self.names)
        }
    }

    /// The extension of the file name, if it has one.
    pub open spec fn extension(self) -> Option<Seq<char>> {
        match self.file_name() {
            Some(name) => name_extension(name),
            None => None,
        }
    }
}

/// The names of a path written one after the other, with a slash between
/// each two.
pub open spec fn joined(names: Seq<Seq<char>>) -> Seq<char>
    decreases names.len(),
{
    if names.len() == 0 {
        Seq::empty()
    } else if names.len() == 1 {
        names[0]
    } else {
        joined(names.drop_last()) + seq!['/'] + names.last()
    }
}

/// The name is `.` or `..`, which stand for a directory and not for a file.
pub open spec fn is_dot_name(name: Seq<char>) -> bool {
    name == seq!['.'] || name == seq!['.', '.']
}

/// The greatest index below `n` at which `name` has a dot, or -1.
pub open spec fn last_dot_before(name: Seq<char>, n: int) -> int
    decreases n,
{
    if n <= 0 {
        -1
    } else if name[n - 1] == '.' {
        n - 1
    } else {
        last_dot_before(name, n - 1)
    }
}

/// What follows the last dot of a file name. A name without a dot has no
/// extension, and neither has one whose only dot is its first character.
pub open spec fn name_extension(name: Seq<char>) -> Option<Seq<char>> {
    let dot = last_dot_before(name, name.len() as int);
    if dot > 0 {
        Some(name.skip(dot + 1))
    } else {
        None
    }
}

/// A path is an ancestor of another exactly when it is that path's parent or
/// an ancestor of that parent.
pub proof fn lemma_ancestor_unfold(a: PathModel, p: PathModel)
    ensures
        a.is_ancestor_of(p) <==> (p.parent() matches Some(q) && (a == q || a.is_ancestor_of(q))),
{
    if p.names.len() > 0 {
        let q = p.parent().unwrap();
        let n = a.names.len() as int;
        if a.is_ancestor_of(p) {
            if n == q.names.len() {
                assert(p.names.take(n) =~= q.names);
                assert(a =~= q);
            } else {
                assert(q.names.take(n) =~= p.names.take(n));
                assert(a =~= q.prefix(n));
            }
        }
        if a == q {
            assert(p.names.take(n) =~= q.names);
            assert(a =~= p.prefix(n));
        }
        if a.is_ancestor_of(q) {
            assert(q.names.take(n) =~= p.names.take(n));
            assert(a =~= p.prefix(n));
        }
    }
}

/// What follows the last dot of a file name, if the name has one.
pub fn extension_of_name(name: &str) -> (out: Option<&str>)
    ensures
        match out {
            Some(text) => name_extension(name@) == Some(text@),
            None => name_extension(name@) is None,
        },
{
    let length = name.unicode_len();
    let mut end: usize = length;
    while end > 0
        invariant
            end <= length,
            length == name@.len(),
            last_dot_before(name@, length as int) == last_dot_before(name@, end as int),
        decreases end,
    {
        if name.get_char(end - 1) == '.' {
            if end - 1 > 0 {
                let text = name.substring_char(end, length);
                assert(text@ =~= name@.skip(end as int));
                return Some(text);
            } else {
                return None;
            }
        }
        end = end - 1;
    }
    None
}

/// An owned path: a root flag and the names below it.
#[derive(Debug)]
pub struct NodePath {
    pub anchored: bool,
    pub names: Vec<String>,
}

impl View for NodePath {
    type V = PathModel;

    open spec fn view(&self) -> PathModel {
        PathModel {
            anchored: self.anchored,
            names: Seq::new(self.names@.len(), |i: int| self.names@[i]@),
        }
    }
}

impl Clone for NodePath {
    fn clone(&self) -> (out: Self)
        ensures
            out@ == self@,
    {
        let mut names: Vec<String> = Vec::new();
        let mut i: usize = 0;
        while i < self.names.len()
            invariant
                i <= self.names.len(),
                names@.len() == i,
                forall|k: int| 0 <= k < i ==> names@[k]@ == self.names@[k]@,
            decreases self.names.len() - i,
        {
            names.push(self.names[i].clone());
            i = i + 1;
        }
        let out = NodePath { anchored: self.anchored, names };
        assert(out@ =~= self@);
        out
    }
}

impl NodePath {
    /// A path from its parts.
    pub fn new(anchored: bool, names: Vec<String>) -> (out: Self)
        ensures
            out.anchored == anchored,
            out.names == names,
    {
        NodePath { anchored, names }
    }

    /// How many names the path has.
    pub fn len(&self) -> (n: usize)
        ensures
            n == self@.names.len(),
    {
        self.names.len()
    }

    /// The path without its last name, or `None` for a path with no names.
    pub fn parent(&self) -> (out: Option<NodePath>)
        ensures
            match out {
                Some(p) => self@.parent() == Some(p@),
                None => self@.parent() is None,
            },
    {
        if self.names.len() == 0 {
            return None;
        }
        let keep: usize = self.names.len() - 1;
        let p = self.prefix(keep);
        assert(self@.names.take(keep as int) =~= self@.names.drop_last());
        Some(p)
    }

    /// The path made of the first `len` names.
    pub fn prefix(&self, len: usize) -> (out: NodePath)
        requires
            len <= self@.names.len(),
        ensures
            out@ == self@.prefix(len as int),
    {
        let mut names: Vec<String> = Vec::new();
        let mut i: usize = 0;
        while i < len
            invariant
                i <= len <= self.names.len(),
                names@.len() == i,
                forall|k: int| 0 <= k < i ==> names@[k]@ == self.names@[k]@,
            decreases len - i,
        {
            names.push(self.names[i].clone());
            i = i + 1;
        }
        let out = NodePath { anchored: self.anchored, names };
        assert(out@ =~= self@.prefix(len as int));
        out
    }

    /// Whether this path equals the first `len` names of `other`.
    pub fn is_prefix_of(&self, other: &NodePath, len: usize) -> (same: bool)
        requires
            len <= other@.names.len(),
        ensures
            same == (self@ == other@.prefix(len as int)),
    {
        if self.anchored != other.anchored || self.names.len() != len {
            assert(other@.prefix(len as int).names.len() == len);
            return false;
        }
        let mut i: usize = 0;
        while i < len
            invariant
                i <= len,
                len == self.names.len(),
                len <= other.names.len(),
                forall|k: int| 0 <= k < i ==> self.names@[k]@ == other.names@[k]@,
            decreases len - i,
        {
            if self.names[i] != other.names[i] {
                assert(self@.names[i as int] != other@.prefix(len as int).names[i as int]);
                return false;
            }
            i = i + 1;
        }
        assert(self@ =~= other@.prefix(len as int));
        true
    }

    /// The last name of the path, unless the path has no names or ends in
    /// `.` or `..`.
    pub fn file_name(&self) -> (out: Option<&String>)
        ensures
            match out {
                Some(name) => self@.file_name() == Some(name@),
                None => self@.file_name() is None,
            },
    {
        if self.names.len() == 0 {
            return None;
        }
        let name = &self.names[self.names.len() - 1];
        assert(self@.names.last() == name@);
        let length = name.as_str().unicode_len();
        let dotted = (length == 1 && name.as_str().get_char(0) == '.') || (length == 2
            && name.as_str().get_char(0) == '.' && name.as_str().get_char(1) == '.');
        proof {
            if dotted {
                assert(name@ =~= seq!['.'] || name@ =~= seq!['.', '.']);
            }
        }
        if dotted {
            None
        } else {
            Some(name)
        }
    }

    /// The extension of the file name, if it has one.
    pub fn extension(&self) -> (out: Option<&str>)
        ensures
            match out {
                Some(text) => self@.extension() == Some(text@),
                None => self@.extension() is None,
            },
    {
        match self.file_name() {
            Some(name) => extension_of_name(name.as_str()),
            None => None,
        }
    }

    /// The path as text.
    pub fn display(&self) -> (text: String)
        ensures
            text@ == self@.render(),
    {
        let mut text = String::new();
        proof {
            reveal_strlit("/");
            assert("/"@ =~= seq!['/']);
        }
        if self.anchored {
            text.append("/");
        }
        let ghost start = text@;
        let ghost names = self@.names;
        assert(start + joined(names.take(0)) =~= start);
        let mut i: usize = 0;
        while i < self.names.len()
            invariant
                i <= self.names.len(),
                names == self@.names,
                "/"@ == seq!['/'],
                text@ == start + joined(names.take(i as int)),
            decreases self.names.len() - i,
        {
            proof {
                assert(names.take(i + 1).drop_last() =~= names.take(i as int));
                assert(names.take(i + 1).last() == self.names@[i as int]@);
            }
            if i > 0 {
                text.append("/");
            }
            text.append(self.names[i].as_str());
            proof {
                if i == 0 {
                    assert(joined(names.take(0)) =~= Seq::<char>::empty());
                    assert(text@ =~= start + joined(names.take(1)));
                } else {
                    assert(text@ =~= start + joined(names.take(i + 1)));
                }
            }
            i = i + 1;
        }
        proof {
            assert(names.take(self.names.len() as int) =~= names);
            if self.anchored {
                assert(start =~= seq!['/']);
            } else {
                assert(start =~= Seq::<char>::empty());
                assert(start + joined(names) =~= joined(names));
            }
        }
        text
    }

    /// Whether two paths are the same path.
    pub fn same_as(&self, other: &NodePath) -> (same: bool)
        ensures
            same == (self@ == other@),
    {
        if self.names.len() != other.names.len() {
            return false;
        }
        let same = self.is_prefix_of(other, other.names.len());
        assert(other@.names.take(other@.names.len() as int) =~= other@.names);
        assert(other@.prefix(other@.names.len() as int) =~= other@);
        same
    }
}

} // verus!
