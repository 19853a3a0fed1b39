//! Filesystem paths as lists of components, with the Unix meaning that the
//! standard library's `Path::components` gives them: an optional root `/`
//! first, an optional `.` first in a relative path, and then the named parts
//! (and `..`) that lie between separators.

use vstd::prelude::*;
use crate::text::{
    last_index, last_index_of, lemma_last_index_of_bounds, lemma_last_index_of_found, owned,
    push_char,
};

verus! {

/// The root component.
pub open spec fn root_comp() -> Seq<char> {
    seq!['/']
}

/// The current-directory component.
pub open spec fn cur_comp() -> Seq<char> {
    seq!['.']
}

/// The parent-directory component.
pub open spec fn parent_comp() -> Seq<char> {
    seq!['.', '.']
}

/// A component that names an entry (neither root, `.` nor `..`).
pub open spec fn is_normal(c: Seq<char>) -> bool {
    c != root_comp() && c != cur_comp() && c != parent_comp()
}

/// What a component list must look like: no empty component, the root only
/// first, `.` only first, and no separator inside any other component.
pub open spec fn valid_comps(cs: Seq<Seq<char>>) -> bool {
    forall|i: int|
        0 <= i < cs.len() ==> {
            &&& (#[trigger] cs[i]).len() > 0
            &&& cs[i] == root_comp() ==> i == 0
            &&& cs[i] != root_comp() ==> !cs[i].contains('/')
            &&& cs[i] == cur_comp() ==> i == 0
        }
}

/// Adds the pending segment `cur` to `done`, unless it is empty or `.`.
pub open spec fn flush(done: Seq<Seq<char>>, cur: Seq<char>) -> Seq<Seq<char>> {
    if cur.len() > 0 && cur != cur_comp() {
        done.push(cur)
    } else {
        done
    }
}

/// Left-to-right scan of `s`: the completed segments and the pending one.
pub open spec fn scan(s: Seq<char>) -> (Seq<Seq<char>>, Seq<char>)
    decreases s.len(),
{
    if s.len() == 0 {
        (seq![], seq![])
    } else {
        let (d, c) = scan(s.drop_last());
        if s.last() == '/' {
            (flush(d, c), seq![])
        } else {
            (d, c.push(s.last()))
        }
    }
}

/// `s` starts with the root.
pub open spec fn leads_with_root(s: Seq<char>) -> bool {
    s.len() > 0 && s[0] == '/'
}

/// `s` is relative and starts with a `.` component.
pub open spec fn leads_with_cur(s: Seq<char>) -> bool {
    &&& !leads_with_root(s)
    &&& s.len() > 0
    &&& s[0] == '.'
    &&& (s.len() == 1 || s[1] == '/')
}

/// The components of the path written as `s`.
pub open spec fn parse_comps(s: Seq<char>) -> Seq<Seq<char>> {
    let body = flush(scan(s).0, scan(s).1);
    if leads_with_root(s) {
        seq![root_comp()] + body
    } else if leads_with_cur(s) {
        seq![cur_comp()] + body
    } else {
        body
    }
}

/// Components joined by `/`.
pub open spec fn joined(cs: Seq<Seq<char>>) -> Seq<char>
    decreases cs.len(),
{
    if cs.len() == 0 {
        seq![]
    } else if cs.len() == 1 {
        cs[0]
    } else {
        joined(cs.drop_last()) + seq!['/'] + cs.last()
    }
}

/// The text of a path with components `cs`.
pub open spec fn render(cs: Seq<Seq<char>>) -> Seq<char> {
    if cs.len() > 0 && cs[0] == root_comp() {
        seq!['/'] + joined(cs.drop_first())
    } else {
        joined(cs)
    }
}

/// `p` is absolute: it begins with the root.
pub open spec fn spec_is_absolute(p: Seq<Seq<char>>) -> bool {
    p.len() > 0 && p[0] == root_comp()
}

/// `b` without a leading `.` component.
pub open spec fn without_cur(b: Seq<Seq<char>>) -> Seq<Seq<char>> {
    if b.len() > 0 && b[0] == cur_comp() {
        b.drop_first()
    } else {
        b
    }
}

/// `a` with `b` adjoined: `b` itself when it is absolute or `a` is empty.
pub open spec fn spec_join(a: Seq<Seq<char>>, b: Seq<Seq<char>>) -> Seq<Seq<char>> {
    if spec_is_absolute(b) || a.len() == 0 {
        b
    } else {
        a + without_cur(b)
    }
}

/// The components of `base` are the first components of `p`.
pub open spec fn spec_starts_with(p: Seq<Seq<char>>, base: Seq<Seq<char>>) -> bool {
    base.len() <= p.len() && p.subrange(0, base.len() as int) == base
}

/// `p` without the components of `base`, when `p` starts with `base`.
pub open spec fn spec_strip_prefix(p: Seq<Seq<char>>, base: Seq<Seq<char>>) -> Option<
    Seq<Seq<char>>,
> {
    if spec_starts_with(p, base) {
        Some(p.subrange(base.len() as int, p.len() as int))
    } else {
        None
    }
}

/// The last component, when it names an entry.
pub open spec fn spec_file_name(p: Seq<Seq<char>>) -> Option<Seq<char>> {
    if p.len() > 0 && is_normal(p.last()) {
        Some(p.last())
    } else {
        None
    }
}

/// The path without its last component; none for the empty path and the root.
pub open spec fn spec_parent(p: Seq<Seq<char>>) -> Option<Seq<Seq<char>>> {
    if p.len() == 0 || p.last() == root_comp() {
        None
    } else {
        Some(p.drop_last())
    }
}

/// The stem of a file name: before its last `.`, unless that `.` is the
/// first character or there is none, in which case the whole name.
pub open spec fn name_stem(name: Seq<char>) -> Seq<char> {
    let k = last_index_of(name, '.');
    if k <= 0 {
        name
    } else {
        name.subrange(0, k)
    }
}

/// The extension of a file name: after its last `.`, unless that `.` is the
/// first character or there is none.
pub open spec fn name_extension(name: Seq<char>) -> Option<Seq<char>> {
    let k = last_index_of(name, '.');
    if k <= 0 {
        None
    } else {
        Some(name.subrange(k + 1, name.len() as int))
    }
}

pub open spec fn spec_file_stem(p: Seq<Seq<char>>) -> Option<Seq<char>> {
    match spec_file_name(p) {
        Some(n) => Some(name_stem(n)),
        None => None,
    }
}

pub open spec fn spec_extension(p: Seq<Seq<char>>) -> Option<Seq<char>> {
    match spec_file_name(p) {
        Some(n) => name_extension(n),
        None => None,
    }
}

/// `p` with the extension of its file name replaced by `ext`.
pub open spec fn spec_with_extension(p: Seq<Seq<char>>, ext: Seq<char>) -> Seq<Seq<char>> {
    match spec_file_name(p) {
        Some(n) => p.drop_last().push(name_stem(n) + seq!['.'] + ext),
        None => p,
    }
}

/// `p` with `.ext` added after its file name; unchanged for an empty `ext`.
pub open spec fn spec_add_extension(p: Seq<Seq<char>>, ext: Seq<char>) -> Seq<Seq<char>> {
    match spec_file_name(p) {
        Some(n) => if ext.len() > 0 {
            p.drop_last().push(n + seq!['.'] + ext)
        } else {
            p
        },
        None => p,
    }
}

/// A filesystem path as its list of components.
#[derive(Debug)]
pub struct FsPath {
    comps: Vec<String>,
}

impl View for FsPath {
    type V = Seq<Seq<char>>;

    closed spec fn view(&self) -> Seq<Seq<char>> {
        self.comps@.map_values(|s: String| s@)
    }
}

proof fn lemma_scan_valid(s: Seq<char>)
    ensures
        forall|i: int|
            0 <= i < scan(s).0.len() ==> {
                &&& (#[trigger] scan(s).0[i]).len() > 0
                &&& scan(s).0[i] != cur_comp()
                &&& !scan(s).0[i].contains('/')
            },
        !scan(s).1.contains('/'),
    decreases s.len(),
{
    if s.len() > 0 {
        lemma_scan_valid(s.drop_last());
        let (d, c) = scan(s.drop_last());
        if s.last() != '/' {
            assert forall|k: int| 0 <= k < c.push(s.last()).len() implies c.push(s.last())[k]
                != '/' by {
                if k < c.len() {
                    assert(c[k] == c.push(s.last())[k]);
                }
            }
        }
    }
}

pub proof fn lemma_parse_valid(s: Seq<char>)
    ensures
        valid_comps(parse_comps(s)),
{
    lemma_scan_valid(s);
    let body = flush(scan(s).0, scan(s).1);
    assert forall|i: int| 0 <= i < body.len() implies {
        &&& (#[trigger] body[i]).len() > 0
        &&& body[i] != cur_comp()
        &&& !body[i].contains('/')
    } by {
        if i < scan(s).0.len() {
            assert(body[i] == scan(s).0[i]);
        }
    }
    assert(root_comp().contains('/')) by {
        assert(root_comp()[0] == '/');
    }
    let p = parse_comps(s);
    if leads_with_root(s) {
        assert forall|i: int| 1 <= i < p.len() implies p[i] == body[i - 1] by {}
    } else if leads_with_cur(s) {
        assert forall|i: int| 1 <= i < p.len() implies p[i] == body[i - 1] by {}
    }
}

proof fn lemma_root_has_slash()
    ensures
        root_comp().contains('/'),
{
    assert(root_comp()[0] == '/');
}

impl FsPath {
    #[verifier::type_invariant]
    pub(crate) open spec fn inv(&self) -> bool {
        valid_comps(self@)
    }

    /// The empty path.
    pub fn empty() -> (r: FsPath)
        ensures
            r@ == Seq::<Seq<char>>::empty(),
    {
        let r = FsPath { comps: Vec::new() };
        assert(r@ =~= Seq::<Seq<char>>::empty());
        r
    }

    /// The path written as `s`, split into its components.
    pub fn parse(s: &str) -> (r: FsPath)
        ensures
            r@ == parse_comps(s@),
    {
        let n = s.unicode_len();
        let mut done: Vec<String> = Vec::new();
        let mut cur = String::new();
        let mut i: usize = 0;
        assert(s@.take(0) =~= Seq::<char>::empty());
        while i < n
            invariant
                n == s@.len(),
                i <= n,
                done@.map_values(|x: String| x@) == scan(s@.take(i as int)).0,
                cur@ == scan(s@.take(i as int)).1,
            decreases n - i,
        {
            let c = s.get_char(i);
            let ghost prev = s@.take(i as int);
            assert(s@.take(i + 1).drop_last() =~= prev);
            assert(s@.take(i + 1).last() == c);
            if c == '/' {
                let keep = cur.unicode_len() > 0 && !(cur.unicode_len() == 1 && cur.get_char(0)
                    == '.');
                proof {
                    if cur@.len() == 1 {
                        if cur@[0] == '.' {
                            assert(cur@ =~= cur_comp());
                        }
                    }
                }
                if keep {
                    let ghost before = done@;
                    done.push(cur);
                    assert(done@.map_values(|x: String| x@) =~= before.map_values(
                        |x: String| x@,
                    ).push(scan(prev).1));
                }
                cur = String::new();
                assert(cur@ =~= Seq::<char>::empty());
            } else {
                push_char(&mut cur, c);
            }
            i += 1;
        }
        assert(s@.take(n as int) =~= s@);
        let keep = cur.unicode_len() > 0 && !(cur.unicode_len() == 1 && cur.get_char(0) == '.');
        proof {
            if cur@.len() == 1 {
                if cur@[0] == '.' {
                    assert(cur@ =~= cur_comp());
                }
            }
        }
        if keep {
            let ghost before = done@;
            done.push(cur);
            assert(done@.map_values(|x: String| x@) =~= before.map_values(|x: String| x@).push(
                scan(s@).1,
            ));
        }
        let ghost body = flush(scan(s@).0, scan(s@).1);
        let lead_root = n > 0 && s.get_char(0) == '/';
        let lead_cur = !lead_root && n > 0 && s.get_char(0) == '.' && (n == 1 || s.get_char(1)
            == '/');
        let mut comps: Vec<String> = Vec::new();
        if lead_root {
            comps.push(owned("/"));
        } else if lead_cur {
            comps.push(owned("."));
        }
        let ghost head = comps@.map_values(|x: String| x@);
        proof {
            reveal_strlit("/");
            reveal_strlit(".");
            assert("/"@ =~= root_comp());
            assert("."@ =~= cur_comp());
            if lead_root {
                assert(head =~= seq![root_comp()]);
            } else if lead_cur {
                assert(head =~= seq![cur_comp()]);
            } else {
                assert(head =~= Seq::<Seq<char>>::empty());
            }
        }
        let m = done.len();
        let mut j: usize = 0;
        let ghost done_view = done@.map_values(|x: String| x@);
        assert(done_view == body);
        while j < m
            invariant
                m == done@.len(),
                j <= m,
                done_view == done@.map_values(|x: String| x@),
                comps@.map_values(|x: String| x@) == head + done_view.take(j as int),
            decreases m - j,
        {
            let ghost before = comps@;
            comps.push(done[j].clone());
            assert(done_view.take(j + 1) =~= done_view.take(j as int).push(done@[j as int]@));
            assert(comps@.map_values(|x: String| x@) =~= before.map_values(|x: String| x@).push(
                done@[j as int]@,
            ));
            j += 1;
        }
        assert(done_view.take(m as int) =~= done_view);
        proof {
            lemma_parse_valid(s@);
            assert(comps@.map_values(|x: String| x@) =~= parse_comps(s@));
        }
        FsPath { comps }
    }
}


/// The views of a list of strings.
pub open spec fn views(v: Seq<String>) -> Seq<Seq<char>> {
    v.map_values(|x: String| x@)
}

/// Appends clones of `v[from..to]` to `out`.
fn extend_with(out: &mut Vec<String>, v: &Vec<String>, from: usize, to: usize)
    requires
        from <= to <= v@.len(),
    ensures
        views(final(out)@) == views(old(out)@) + views(v@).subrange(from as int, to as int),
{
    let mut k = from;
    while k < to
        invariant
            from <= k <= to,
            to <= v@.len(),
            views(out@) == views(old(out)@) + views(v@).subrange(from as int, k as int),
        decreases to - k,
    {
        let ghost before = out@;
        out.push(v[k].clone());
        assert(views(out@) =~= views(before).push(v@[k as int]@));
        assert(views(v@).subrange(from as int, k + 1) =~= views(v@).subrange(
            from as int,
            k as int,
        ).push(v@[k as int]@));
        k += 1;
    }
}

/// Whether `s` is exactly the one-character string `c`.
fn is_single(s: &String, c: char) -> (r: bool)
    ensures
        r == (s@ == seq![c]),
{
    let r = s.unicode_len() == 1 && s.as_str().get_char(0) == c;
    proof {
        if s@.len() == 1 && s@[0] == c {
            assert(s@ =~= seq![c]);
        }
    }
    r
}

/// Whether `s` is `..`.
fn is_dotdot(s: &String) -> (r: bool)
    ensures
        r == (s@ == parent_comp()),
{
    let r = s.unicode_len() == 2 && s.as_str().get_char(0) == '.' && s.as_str().get_char(1)
        == '.';
    proof {
        if s@.len() == 2 && s@[0] == '.' && s@[1] == '.' {
            assert(s@ =~= parent_comp());
        }
    }
    r
}

/// The stem of a file name.
fn stem_of(name: &str) -> (r: String)
    ensures
        r@ == name_stem(name@),
{
    match last_index(name, '.') {
        Some(k) => {
            if k == 0 {
                owned(name)
            } else {
                owned(name.substring_char(0, k))
            }
        },
        None => owned(name),
    }
}

/// The extension of a file name.
fn extension_of(name: &str) -> (r: Option<String>)
    ensures
        r matches Some(e) ==> name_extension(name@) == Some(e@),
        r is None ==> name_extension(name@) is None,
{
    match last_index(name, '.') {
        Some(k) => {
            if k == 0 {
                None
            } else {
                let n = name.unicode_len();
                Some(owned(name.substring_char(k + 1, n)))
            }
        },
        None => None,
    }
}

impl FsPath {
    /// The number of components.
    pub fn len(&self) -> (r: usize)
        ensures
            r == self@.len(),
    {
        self.comps.len()
    }

    /// A path with the same components.
    pub fn copy(&self) -> (r: FsPath)
        ensures
            r@ == self@,
    {
        proof {
            use_type_invariant(self);
        }
        let mut comps: Vec<String> = Vec::new();
        extend_with(&mut comps, &self.comps, 0, self.comps.len());
        assert(views(comps@) =~= self@);
        FsPath { comps }
    }

    /// Whether two paths have the same components.
    pub fn equals(&self, other: &FsPath) -> (r: bool)
        ensures
            r == (self@ == other@),
    {
        let n = self.comps.len();
        if n != other.comps.len() {
            return false;
        }
        let mut i: usize = 0;
        while i < n
            invariant
                n == self@.len(),
                n == other@.len(),
                i <= n,
                forall|j: int| 0 <= j < i ==> self@[j] == other@[j],
            decreases n - i,
        {
            if self.comps[i] != other.comps[i] {
                assert(self@[i as int] != other@[i as int]);
                return false;
            }
            i += 1;
        }
        assert(self@ =~= other@);
        true
    }

    /// The text of the path: its components joined by `/`, after the root.
    pub fn to_text(&self) -> (r: String)
        ensures
            r@ == render(self@),
    {
        let n = self.comps.len();
        let mut r = String::new();
        let mut start: usize = 0;
        if n > 0 && is_single(&self.comps[0], '/') {
            push_char(&mut r, '/');
            start = 1;
        }
        let ghost lead = r@;
        let ghost cs = self@.subrange(start as int, n as int);
        let mut k = start;
        assert(cs.subrange(0, 0) =~= Seq::<Seq<char>>::empty());
        while k < n
            invariant
                n == self@.len(),
                start <= k <= n,
                cs == self@.subrange(start as int, n as int),
                r@ == lead + joined(cs.subrange(0, k - start)),
            decreases n - k,
        {
            let ghost before = r@;
            assert(cs.subrange(0, k + 1 - start).drop_last() =~= cs.subrange(0, k - start));
            assert(cs[k - start] == self@[k as int]);
            if k > start {
                push_char(&mut r, '/');
            }
            r.append(self.comps[k].as_str());
            proof {
                if k == start {
                    assert(cs.subrange(0, 1) =~= seq![cs[0]]);
                    assert(r@ =~= lead + joined(cs.subrange(0, k + 1 - start)));
                } else {
                    assert(r@ =~= lead + joined(cs.subrange(0, k + 1 - start)));
                }
            }
            k += 1;
        }
        proof {
            assert(cs.subrange(0, n - start) =~= cs);
            if n > 0 && self@[0] == root_comp() {
                assert(lead =~= seq!['/']);
                assert(cs =~= self@.drop_first());
            } else {
                assert(lead =~= Seq::<char>::empty());
                assert(cs =~= self@);
                assert(r@ =~= joined(self@));
            }
        }
        r
    }

    /// Whether the path begins with the root.
    pub fn is_absolute(&self) -> (r: bool)
        ensures
            r == spec_is_absolute(self@),
    {
        self.comps.len() > 0 && is_single(&self.comps[0], '/')
    }

    /// `self` with `other` adjoined, as `Path::join` does it.
    pub fn join(&self, other: &FsPath) -> (r: FsPath)
        ensures
            r@ == spec_join(self@, other@),
    {
        proof {
            use_type_invariant(self);
            use_type_invariant(other);
        }
        if other.is_absolute() || self.comps.len() == 0 {
            return other.copy();
        }
        let skip: usize = if other.comps.len() > 0 && is_single(&other.comps[0], '.') {
            1
        } else {
            0
        };
        let mut comps: Vec<String> = Vec::new();
        extend_with(&mut comps, &self.comps, 0, self.comps.len());
        extend_with(&mut comps, &other.comps, skip, other.comps.len());
        proof {
            let o = other@;
            let w = without_cur(o);
            assert(self@.subrange(0, self@.len() as int) =~= self@);
            assert(o.subrange(skip as int, o.len() as int) =~= w);
            assert(views(comps@) =~= self@ + w);
            let r = self@ + w;
            lemma_root_has_slash();
            assert forall|i: int| 0 <= i < r.len() implies {
                &&& (#[trigger] r[i]).len() > 0
                &&& r[i] == root_comp() ==> i == 0
                &&& r[i] != root_comp() ==> !r[i].contains('/')
                &&& r[i] == cur_comp() ==> i == 0
            } by {
                if i >= self@.len() {
                    assert(r[i] == o[i - self@.len() + skip]);
                }
            }
        }
        FsPath { comps }
    }

    /// Whether the components of `base` are the first components of `self`.
    pub fn starts_with(&self, base: &FsPath) -> (r: bool)
        ensures
            r == spec_starts_with(self@, base@),
    {
        let m = base.comps.len();
        if m > self.comps.len() {
            return false;
        }
        let mut i: usize = 0;
        while i < m
            invariant
                m == base@.len(),
                m <= self@.len(),
                i <= m,
                forall|j: int| 0 <= j < i ==> self@[j] == base@[j],
            decreases m - i,
        {
            if self.comps[i] != base.comps[i] {
                assert(self@.subrange(0, m as int)[i as int] != base@[i as int]);
                return false;
            }
            i += 1;
        }
        assert(self@.subrange(0, m as int) =~= base@);
        true
    }

    /// `self` relative to `base`, as `Path::strip_prefix` gives it.
    pub fn strip_prefix(&self, base: &FsPath) -> (r: Option<FsPath>)
        ensures
            match r {
                Some(p) => spec_strip_prefix(self@, base@) == Some(p@),
                None => spec_strip_prefix(self@, base@) is None,
            },
    {
        proof {
            use_type_invariant(self);
        }
        if !self.starts_with(base) {
            return None;
        }
        let k = base.comps.len();
        let mut comps: Vec<String> = Vec::new();
        extend_with(&mut comps, &self.comps, k, self.comps.len());
        proof {
            let r = self@.subrange(k as int, self@.len() as int);
            assert(views(comps@) =~= r);
            assert forall|i: int| 0 <= i < r.len() implies {
                &&& (#[trigger] r[i]).len() > 0
                &&& r[i] == root_comp() ==> i == 0
                &&& r[i] != root_comp() ==> !r[i].contains('/')
                &&& r[i] == cur_comp() ==> i == 0
            } by {
                assert(r[i] == self@[i + k]);
            }
        }
        Some(FsPath { comps })
    }

    /// The last component, when it names an entry.
    pub fn file_name(&self) -> (r: Option<String>)
        ensures
            match r {
                Some(n) => spec_file_name(self@) == Some(n@),
                None => spec_file_name(self@) is None,
            },
            r matches Some(n) ==> !n@.contains('/'),
    {
        proof {
            use_type_invariant(self);
            lemma_root_has_slash();
        }
        let n = self.comps.len();
        if n == 0 {
            return None;
        }
        let last = &self.comps[n - 1];
        if is_single(last, '/') || is_single(last, '.') || is_dotdot(last) {
            None
        } else {
            Some(last.clone())
        }
    }

    /// The path without its last component.
    pub fn parent(&self) -> (r: Option<FsPath>)
        ensures
            match r {
                Some(p) => spec_parent(self@) == Some(p@),
                None => spec_parent(self@) is None,
            },
    {
        proof {
            use_type_invariant(self);
        }
        let n = self.comps.len();
        if n == 0 || is_single(&self.comps[n - 1], '/') {
            return None;
        }
        let mut comps: Vec<String> = Vec::new();
        extend_with(&mut comps, &self.comps, 0, n - 1);
        proof {
            let r = self@.drop_last();
            assert(views(comps@) =~= r);
            assert forall|i: int| 0 <= i < r.len() implies {
                &&& (#[trigger] r[i]).len() > 0
                &&& r[i] == root_comp() ==> i == 0
                &&& r[i] != root_comp() ==> !r[i].contains('/')
                &&& r[i] == cur_comp() ==> i == 0
            } by {
                assert(r[i] == self@[i]);
            }
        }
        Some(FsPath { comps })
    }

    /// Truncates the path to its parent; false, and no change, when it has none.
    pub fn pop(&mut self) -> (r: bool)
        ensures
            match spec_parent(old(self)@) {
                Some(p) => r && final(self)@ == p,
                None => !r && final(self)@ == old(self)@,
            },
    {
        match self.parent() {
            Some(p) => {
                *self = p;
                true
            },
            None => false,
        }
    }

    /// The file name without its extension.
    pub fn file_stem(&self) -> (r: Option<String>)
        ensures
            match r {
                Some(n) => spec_file_stem(self@) == Some(n@),
                None => spec_file_stem(self@) is None,
            },
    {
        match self.file_name() {
            Some(n) => Some(stem_of(n.as_str())),
            None => None,
        }
    }

    /// The extension of the file name.
    pub fn extension(&self) -> (r: Option<String>)
        ensures
            match r {
                Some(n) => spec_extension(self@) == Some(n@),
                None => spec_extension(self@) is None,
            },
            r matches Some(e) ==> !e@.contains('/'),
    {
        match self.file_name() {
            Some(n) => {
                let r = extension_of(n.as_str());
                proof {
                    if r is Some {
                        let e = r->0@;
                        let k = last_index_of(n@, '.');
                        lemma_last_index_of_bounds(n@, '.');
                        assert(e =~= n@.subrange(k + 1, n@.len() as int));
                        assert forall|j: int| 0 <= j < e.len() implies e[j] != '/' by {
                            assert(e[j] == n@[k + 1 + j]);
                            assert(!n@.contains('/'));
                        }
                    }
                }
                r
            },
            None => None,
        }
    }

    /// A path whose last component is replaced by `name`.
    fn with_last(&self, name: String) -> (r: FsPath)
        requires
            self@.len() > 0,
            is_normal(self@.last()),
            name@.len() > 0,
            !name@.contains('/'),
            name@ != cur_comp(),
        ensures
            r@ == self@.drop_last().push(name@),
    {
        proof {
            use_type_invariant(self);
        }
        let n = self.comps.len();
        let mut comps: Vec<String> = Vec::new();
        extend_with(&mut comps, &self.comps, 0, n - 1);
        let ghost before = comps@;
        comps.push(name);
        proof {
            let r = self@.drop_last().push(name@);
            assert(views(comps@) =~= r);
            lemma_root_has_slash();
            assert forall|i: int| 0 <= i < r.len() implies {
                &&& (#[trigger] r[i]).len() > 0
                &&& r[i] == root_comp() ==> i == 0
                &&& r[i] != root_comp() ==> !r[i].contains('/')
                &&& r[i] == cur_comp() ==> i == 0
            } by {
                if i < r.len() - 1 {
                    assert(r[i] == self@[i]);
                }
            }
        }
        FsPath { comps }
    }

    /// The path with the extension of its file name replaced by `ext`,
    /// as `Path::with_extension` gives it.
    pub fn with_extension(&self, ext: &str) -> (r: FsPath)
        requires
            ext@.len() > 0,
            !ext@.contains('/'),
        ensures
            r@ == spec_with_extension(self@, ext@),
    {
        match self.file_name() {
            Some(n) => {
                let stem = stem_of(n.as_str());
                let mut name = stem;
                push_char(&mut name, '.');
                name.append(ext);
                proof {
                    use_type_invariant(self);
                    let k = last_index_of(n@, '.');
                    lemma_last_index_of_bounds(n@, '.');
                    assert(n@ == self@.last());
                    assert(self@[self@.len() - 1] == n@);
                    lemma_root_has_slash();
                    assert(!n@.contains('/'));
                    assert(name@ =~= name_stem(n@) + seq!['.'] + ext@);
                    assert(name@.len() >= 2);
                    assert(name@ != cur_comp());
                    assert forall|j: int| 0 <= j < name@.len() implies name@[j] != '/' by {
                        let sl = name_stem(n@).len();
                        if j < sl {
                            if k > 0 {
                                assert(name_stem(n@) =~= n@.subrange(0, k));
                                assert(n@.subrange(0, k)[j] == n@[j]);
                            }
                            assert(name@[j] == name_stem(n@)[j]);
                        } else if j > sl {
                            assert(name@[j] == ext@[j - sl - 1]);
                        }
                    }
                }
                self.with_last(name)
            },
            None => self.copy(),
        }
    }

    /// The path with `.ext` added after its file name, as
    /// `PathBuf::add_extension` does it.
    pub fn add_extension(&self, ext: &str) -> (r: FsPath)
        requires
            !ext@.contains('/'),
        ensures
            r@ == spec_add_extension(self@, ext@),
    {
        if ext.unicode_len() == 0 {
            return self.copy();
        }
        match self.file_name() {
            Some(n) => {
                let mut name = n;
                let ghost n0 = name@;
                push_char(&mut name, '.');
                name.append(ext);
                proof {
                    use_type_invariant(self);
                    assert(name@ =~= n0 + seq!['.'] + ext@);
                    assert(name@.len() >= 2);
                    assert(name@ != cur_comp());
                    assert(!n0.contains('/'));
                    assert forall|j: int| 0 <= j < name@.len() implies name@[j] != '/' by {
                        if j < n0.len() {
                            assert(name@[j] == n0[j]);
                        } else if j > n0.len() {
                            assert(name@[j] == ext@[j - n0.len() - 1]);
                        }
                    }
                }
                self.with_last(name)
            },
            None => self.copy(),
        }
    }
}

/// Stripping a prefix gives a path that, joined onto that prefix, yields
/// the original path.
pub proof fn law_join_strip_prefix(p: Seq<Seq<char>>, base: Seq<Seq<char>>)
    requires
        valid_comps(p),
        valid_comps(base),
        spec_starts_with(p, base),
    ensures
        spec_strip_prefix(p, base) matches Some(rest) && spec_join(base, rest) == p,
{
    let k = base.len() as int;
    let rest = p.subrange(k, p.len() as int);
    if base.len() == 0 {
        assert(rest =~= p);
    } else if rest.len() > 0 {
        assert(rest[0] == p[k]);
        assert(!spec_is_absolute(rest));
        assert(without_cur(rest) == rest);
        assert(base + rest =~= p);
    } else {
        assert(base + rest =~= p);
    }
}

/// After the extension of a file name is replaced by `ext` (holding no `.`),
/// the path's extension is `ext`.
pub proof fn law_with_extension_sets_extension(p: Seq<Seq<char>>, ext: Seq<char>)
    requires
        valid_comps(p),
        spec_file_name(p) is Some,
        ext.len() > 0,
        !ext.contains('.'),
    ensures
        spec_extension(spec_with_extension(p, ext)) == Some(ext),
{
    let n = spec_file_name(p).unwrap();
    let stem = name_stem(n);
    assert(n.len() > 0);
    lemma_last_index_of_bounds(n, '.');
    assert(stem.len() > 0);
    let name = stem + seq!['.'] + ext;
    let q = spec_with_extension(p, ext);
    assert(q.last() == name);
    assert(name[stem.len() as int] == '.');
    assert forall|j: int| stem.len() < j < name.len() implies name[j] != '.' by {
        assert(name[j] == ext[j - stem.len() - 1]);
    }
    lemma_last_index_of_found(name, '.', stem.len() as int);
    assert(name != root_comp());
    assert(name != cur_comp());
    assert(name != parent_comp()) by {
        if name == parent_comp() {
            assert(name.len() == 2);
        }
    }
    assert(name.subrange(stem.len() + 1int, name.len() as int) =~= ext);
}

/// Components that lie between separators: not empty, no `/`, not `.`.
pub open spec fn body_comps(cs: Seq<Seq<char>>) -> bool {
    forall|i: int|
        0 <= i < cs.len() ==> (#[trigger] cs[i]).len() > 0 && !cs[i].contains('/') && cs[i]
            != cur_comp()
}

proof fn lemma_scan_append(x: Seq<char>, c: Seq<char>)
    requires
        !c.contains('/'),
    ensures
        scan(x + c) == (scan(x).0, scan(x).1 + c),
    decreases c.len(),
{
    if c.len() == 0 {
        assert(x + c =~= x);
        assert(scan(x).1 + c =~= scan(x).1);
    } else {
        let c1 = c.drop_last();
        assert(!c1.contains('/')) by {
            assert forall|k: int| 0 <= k < c1.len() implies c1[k] != '/' by {
                assert(c1[k] == c[k]);
            }
        }
        lemma_scan_append(x, c1);
        assert((x + c).drop_last() =~= x + c1);
        assert((x + c).last() == c.last());
        assert(c.last() != '/') by {
            assert(c[c.len() - 1] == c.last());
        }
        assert(scan(x).1 + c1 + seq![c.last()] =~= scan(x).1 + c);
        assert((scan(x).1 + c1).push(c.last()) =~= scan(x).1 + c);
    }
}

proof fn lemma_scan_joined(x: Seq<char>, cs: Seq<Seq<char>>)
    requires
        scan(x).1 == Seq::<char>::empty(),
        cs.len() >= 1,
        body_comps(cs),
    ensures
        scan(x + joined(cs)) == (scan(x).0 + cs.drop_last(), cs.last()),
    decreases cs.len(),
{
    if cs.len() == 1 {
        assert(!cs[0].contains('/'));
        lemma_scan_append(x, cs[0]);
        assert(Seq::<char>::empty() + cs[0] =~= cs[0]);
        assert(cs.drop_last() =~= Seq::<Seq<char>>::empty());
        assert(scan(x).0 + cs.drop_last() =~= scan(x).0);
    } else {
        let c1 = cs.drop_last();
        assert(body_comps(c1)) by {
            assert forall|i: int| 0 <= i < c1.len() implies (#[trigger] c1[i]).len() > 0
                && !c1[i].contains('/') && c1[i] != cur_comp() by {
                assert(c1[i] == cs[i]);
            }
        }
        lemma_scan_joined(x, c1);
        let y = (x + joined(c1)).push('/');
        assert(y.drop_last() =~= x + joined(c1));
        assert(c1.last() == cs[cs.len() - 2]);
        assert(scan(y) == (scan(x).0 + c1, Seq::<char>::empty())) by {
            assert(c1.drop_last().push(c1.last()) =~= c1);
            assert((scan(x).0 + c1.drop_last()).push(c1.last()) =~= scan(x).0 + c1);
        }
        assert(!cs.last().contains('/')) by {
            assert(cs.last() == cs[cs.len() - 1]);
        }
        lemma_scan_append(y, cs.last());
        assert(x + joined(cs) =~= y + cs.last());
        assert(Seq::<char>::empty() + cs.last() =~= cs.last());
    }
}

proof fn lemma_joined_cons(a: Seq<char>, rest: Seq<Seq<char>>)
    requires
        rest.len() >= 1,
    ensures
        joined(seq![a] + rest) == a + seq!['/'] + joined(rest),
    decreases rest.len(),
{
    let p = seq![a] + rest;
    if rest.len() == 1 {
        assert(p.drop_last() =~= seq![a]);
        assert(p.last() == rest[0]);
        assert(seq![a].len() == 1 && seq![a][0] == a);
        assert(joined(seq![a]) == a);
        assert(joined(rest) == rest[0]);
        assert(joined(p) == joined(p.drop_last()) + seq!['/'] + p.last());
    } else {
        lemma_joined_cons(a, rest.drop_last());
        assert(p.drop_last() =~= seq![a] + rest.drop_last());
        assert(p.last() == rest.last());
        assert(joined(p) == joined(p.drop_last()) + seq!['/'] + p.last());
        assert(joined(rest) == joined(rest.drop_last()) + seq!['/'] + rest.last());
        assert(a + seq!['/'] + joined(rest.drop_last()) + seq!['/'] + rest.last() =~= a + seq!['/']
            + (joined(rest.drop_last()) + seq!['/'] + rest.last()));
    }
}

proof fn lemma_joined_prefix(cs: Seq<Seq<char>>)
    requires
        cs.len() >= 1,
    ensures
        joined(cs).len() >= cs[0].len(),
        joined(cs).subrange(0, cs[0].len() as int) == cs[0],
    decreases cs.len(),
{
    if cs.len() > 1 {
        lemma_joined_prefix(cs.drop_last());
        let j = joined(cs.drop_last());
        assert(joined(cs).subrange(0, cs[0].len() as int) =~= j.subrange(0, cs[0].len() as int));
    } else {
        assert(joined(cs).subrange(0, cs[0].len() as int) =~= cs[0]);
    }
}

/// Writing a path out and reading it back gives the same components.
pub proof fn law_parse_render(p: Seq<Seq<char>>)
    requires
        valid_comps(p),
    ensures
        parse_comps(render(p)) == p,
{
    lemma_root_has_slash();
    let e = Seq::<char>::empty();
    assert(scan(e) == (Seq::<Seq<char>>::empty(), e));
    if p.len() == 0 {
        assert(render(p) =~= e);
        assert(parse_comps(e) =~= p);
    } else if p[0] == root_comp() {
        let rest = p.drop_first();
        let x = seq!['/'];
        assert(x.drop_last() =~= e);
        assert(scan(x) == (Seq::<Seq<char>>::empty(), e));
        if rest.len() == 0 {
            assert(render(p) =~= x);
            assert(p =~= seq![root_comp()]);
            assert(parse_comps(x) =~= seq![root_comp()] + Seq::<Seq<char>>::empty());
        } else {
            assert(body_comps(rest)) by {
                assert forall|i: int| 0 <= i < rest.len() implies (#[trigger] rest[i]).len() > 0
                    && !rest[i].contains('/') && rest[i] != cur_comp() by {
                    assert(rest[i] == p[i + 1]);
                }
            }
            lemma_scan_joined(x, rest);
            let s = render(p);
            assert(s =~= x + joined(rest));
            assert(leads_with_root(s));
            assert(Seq::<Seq<char>>::empty() + rest.drop_last() =~= rest.drop_last());
            assert(rest.last() == p[p.len() - 1]);
            assert(rest.drop_last().push(rest.last()) =~= rest);
            assert(seq![root_comp()] + rest =~= p);
        }
    } else if p[0] == cur_comp() {
        let rest = p.drop_first();
        if rest.len() == 0 {
            assert(p =~= seq![cur_comp()]);
            assert(render(p) == cur_comp());
            let s = cur_comp();
            assert(s.drop_last() =~= e);
            assert(scan(s) == (Seq::<Seq<char>>::empty(), s)) by {
                assert(e.push('.') =~= s);
            }
            assert(parse_comps(s) =~= seq![cur_comp()]);
        } else {
            assert(body_comps(rest)) by {
                assert forall|i: int| 0 <= i < rest.len() implies (#[trigger] rest[i]).len() > 0
                    && !rest[i].contains('/') && rest[i] != cur_comp() by {
                    assert(rest[i] == p[i + 1]);
                }
            }
            assert(p =~= seq![cur_comp()] + rest);
            lemma_joined_cons(cur_comp(), rest);
            let x = seq!['.', '/'];
            assert(x.drop_last() =~= seq!['.']);
            assert(seq!['.'].drop_last() =~= e);
            assert(scan(seq!['.']) == (Seq::<Seq<char>>::empty(), seq!['.'])) by {
                assert(e.push('.') =~= seq!['.']);
            }
            assert(scan(x) == (Seq::<Seq<char>>::empty(), e));
            lemma_scan_joined(x, rest);
            let s = render(p);
            assert(s =~= x + joined(rest));
            assert(!leads_with_root(s));
            assert(leads_with_cur(s));
            assert(Seq::<Seq<char>>::empty() + rest.drop_last() =~= rest.drop_last());
            assert(rest.drop_last().push(rest.last()) =~= rest);
        }
    } else {
        assert(body_comps(p)) by {
            assert forall|i: int| 0 <= i < p.len() implies (#[trigger] p[i]).len() > 0
                && !p[i].contains('/') && p[i] != cur_comp() by {
                if i > 0 {
                    assert(p[i] != root_comp());
                }
            }
        }
        lemma_scan_joined(e, p);
        let s = render(p);
        assert(e + joined(p) =~= joined(p));
        assert(s == joined(p));
        lemma_joined_prefix(p);
        assert(s[0] == p[0][0]);
        assert(!leads_with_root(s)) by {
            assert(p[0][0] != '/');
        }
        assert(!leads_with_cur(s)) by {
            if p[0].len() >= 2 {
                assert(s[1] == p[0][1]);
                assert(p[0][1] != '/');
            } else if s[0] == '.' {
                assert(p[0] =~= cur_comp());
            }
        }
        assert(Seq::<Seq<char>>::empty() + p.drop_last() =~= p.drop_last());
        assert(p.drop_last().push(p.last()) =~= p);
    }
}

} // verus!
