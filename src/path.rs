use vstd::prelude::*;

verus! {

/// The components of a path written with `/` between them, empty components
/// dropped; `cur` is the component read so far.
pub open spec fn parts_from(s: Seq<char>, i: int, cur: Seq<char>) -> Seq<Seq<char>>
    decreases s.len() - i,
{
    if i >= s.len() {
        if cur.len() == 0 {
            seq![]
        } else {
            seq![cur]
        }
    } else if s[i] == '/' {
        if cur.len() == 0 {
            parts_from(s, i + 1, Seq::empty())
        } else {
            seq![cur] + parts_from(s, i + 1, Seq::empty())
        }
    } else {
        parts_from(s, i + 1, cur.push(s[i]))
    }
}

/// The components of a relative path text such as `a/c/` (here `[a, c]`).
pub open spec fn relative_parts(s: Seq<char>) -> Seq<Seq<char>> {
    parts_from(s, 0, Seq::empty())
}

/// The components of a path text; a leading `/` becomes an empty first component.
pub open spec fn path_parts(s: Seq<char>) -> Seq<Seq<char>> {
    if s.len() > 0 && s[0] == '/' {
        seq![Seq::<char>::empty()] + parts_from(s, 1, Seq::empty())
    } else {
        relative_parts(s)
    }
}

/// The text of a path: its components with `/` between them.
pub open spec fn path_text(p: Seq<Seq<char>>) -> Seq<char>
    decreases p.len(),
{
    if p.len() == 0 {
        Seq::empty()
    } else if p.len() == 1 {
        p[0]
    } else {
        path_text(p.drop_last()) + seq!['/'] + p.last()
    }
}

/// `p` lies strictly beneath `root`.
pub open spec fn strictly_under(p: Seq<Seq<char>>, root: Seq<Seq<char>>) -> bool {
    p.len() > root.len() && p.subrange(0, root.len() as int) == root
}

/// `p` is `root` or lies beneath it.
pub open spec fn within(p: Seq<Seq<char>>, root: Seq<Seq<char>>) -> bool {
    p == root || strictly_under(p, root)
}

/// The character sequences of a sequence of strings.
pub open spec fn texts(v: Seq<String>) -> Seq<Seq<char>> {
    v.map_values(|s: String| s@)
}

/// A filesystem path held as its components. A path that starts at the
/// filesystem root has an empty first component.
#[derive(Debug)]
pub struct FsPath {
    pub parts: Vec<String>,
}

impl View for FsPath {
    type V = Seq<Seq<char>>;

    open spec fn view(&self) -> Seq<Seq<char>> {
        texts(self.parts@)
    }
}

/// Copies a string character for character.
pub fn copy_text(s: &String) -> (r: String)
    ensures
        r@ == s@,
{
    s.clone()
}

impl FsPath {
    /// The path with no components.
    pub fn empty() -> (r: FsPath)
        ensures
            r@ == Seq::<Seq<char>>::empty(),
    {
        let r = FsPath { parts: Vec::new() };
        assert(r@ =~= Seq::<Seq<char>>::empty());
        r
    }

    /// Appends one component.
    pub fn push_part(&mut self, part: &str)
        ensures
            final(self)@ == old(self)@.push(part@),
    {
        self.parts.push(String::from_str(part));
        assert(self@ =~= old(self)@.push(part@));
    }

    /// A second path equal to this one.
    pub fn duplicate(&self) -> (r: FsPath)
        ensures
            r@ == self@,
    {
        self.prefix(self.parts.len())
    }

    /// The first `k` components.
    pub fn prefix(&self, k: usize) -> (r: FsPath)
        requires
            k <= self@.len(),
        ensures
            r@ == self@.subrange(0, k as int),
    {
        let mut out: Vec<String> = Vec::new();
        let mut i: usize = 0;
        while i < k
            invariant
                k <= self.parts@.len(),
                i <= k,
                texts(out@) =~= self@.subrange(0, i as int),
            decreases k - i,
        {
            let ghost before = out@;
            let t = copy_text(&self.parts[i]);
            out.push(t);
            assert(texts(out@) =~= texts(before).push(t@));
            i = i + 1;
            assert(texts(out@) =~= self@.subrange(0, i as int));
        }
        FsPath { parts: out }
    }

    /// Number of components.
    pub fn depth(&self) -> (r: usize)
        ensures
            r == self@.len(),
    {
        self.parts.len()
    }

    /// The path given as text, split on `/`.
    pub fn parse(s: &str) -> (r: FsPath)
        ensures
            r@ == path_parts(s@),
    {
        let n = s.unicode_len();
        if n > 0 && s.get_char(0) == '/' {
            let mut r = FsPath::empty();
            proof {
                reveal_strlit("");
                assert(""@ =~= Seq::<char>::empty());
            }
            r.push_part("");
            r.append_relative_from(s, 1);
            assert(r@ =~= path_parts(s@));
            r
        } else {
            let mut r = FsPath::empty();
            r.append_relative_from(s, 0);
            assert(r@ =~= path_parts(s@));
            r
        }
    }

    /// Appends the components of `s` from character `start` on.
    fn append_relative_from(&mut self, s: &str, start: usize)
        requires
            start <= s@.len(),
        ensures
            final(self)@ == old(self)@ + parts_from(s@, start as int, Seq::empty()),
    {
        let n = s.unicode_len();
        let mut from: usize = start;
        let mut i: usize = start;
        assert(s@.subrange(start as int, start as int) =~= Seq::<char>::empty());
        while i < n
            invariant
                n == s@.len(),
                start <= from <= i <= n,
                self@ + parts_from(s@, i as int, s@.subrange(from as int, i as int)) == old(self)@
                    + parts_from(s@, start as int, Seq::empty()),
            decreases n - i,
        {
            let c = s.get_char(i);
            if c == '/' {
                if from < i {
                    self.push_part(s.substring_char(from, i));
                    assert(self@ + parts_from(s@, i + 1, Seq::empty()) =~= old(self)@ + parts_from(
                        s@,
                        start as int,
                        Seq::empty(),
                    ));
                }
                from = i + 1;
                assert(s@.subrange(from as int, from as int) =~= Seq::<char>::empty());
            } else {
                assert(s@.subrange(from as int, i + 1) =~= s@.subrange(from as int, i as int).push(c));
            }
            i = i + 1;
        }
        if from < n {
            self.push_part(s.substring_char(from, n));
            assert(self@ =~= old(self)@ + parts_from(s@, start as int, Seq::empty()));
        } else {
            assert(self@ =~= old(self)@ + parts_from(s@, start as int, Seq::empty()));
        }
    }

    /// This path followed by the components of the relative path text `rel`.
    pub fn join(&self, rel: &str) -> (r: FsPath)
        ensures
            r@ == self@ + relative_parts(rel@),
    {
        let mut r = self.duplicate();
        r.append_relative_from(rel, 0);
        r
    }

    /// The text of the path, components separated by `/`.
    pub fn to_text(&self) -> (r: String)
        ensures
            r@ == path_text(self@),
    {
        let n = self.parts.len();
        if n == 0 {
            return String::new();
        }
        let mut out = copy_text(&self.parts[0]);
        let mut i: usize = 1;
        assert(self@.subrange(0, 1).drop_last() =~= Seq::<Seq<char>>::empty());
        while i < n
            invariant
                n == self@.len(),
                1 <= i <= n,
                out@ == path_text(self@.subrange(0, i as int)),
            decreases n - i,
        {
            out.append("/");
            out.append(self.parts[i].as_str());
            proof {
                reveal_strlit("/");
                assert(self@.subrange(0, i + 1).drop_last() =~= self@.subrange(0, i as int));
            }
            i = i + 1;
        }
        assert(self@.subrange(0, n as int) =~= self@);
        out
    }

    /// Whether the two paths have the same components.
    pub fn same(&self, other: &FsPath) -> (r: bool)
        ensures
            r == (self@ == other@),
    {
        if self.parts.len() != other.parts.len() {
            return false;
        }
        let mut i: usize = 0;
        while i < self.parts.len()
            invariant
                self@.len() == other@.len(),
                i <= self@.len(),
                self@.subrange(0, i as int) == other@.subrange(0, i as int),
            decreases self@.len() - i,
        {
            if !(self.parts[i] == other.parts[i]) {
                assert(self@[i as int] != other@[i as int]);
                return false;
            }
            assert(self@.subrange(0, i + 1) =~= self@.subrange(0, i as int).push(self@[i as int]));
            assert(other@.subrange(0, i + 1) =~= other@.subrange(0, i as int).push(other@[i as int]));
            i = i + 1;
        }
        assert(self@ =~= self@.subrange(0, i as int));
        assert(other@ =~= other@.subrange(0, i as int));
        true
    }

    /// Whether this path lies strictly beneath `root`.
    pub fn is_strictly_under(&self, root: &FsPath) -> (r: bool)
        ensures
            r == strictly_under(self@, root@),
    {
        if self.parts.len() <= root.parts.len() {
            return false;
        }
        let head = self.prefix(root.parts.len());
        head.same(root)
    }
}

} // verus!
