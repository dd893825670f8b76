//! Canonical absolute paths and the relative path between two paths.
//!
//! A path is text in which `/` separates components. Empty components and
//! `.` components carry no meaning and are dropped when a path is split.
use vstd::prelude::*;
use crate::text::{
    compare_text, drop_empty, lemma_strings_view_push, split_nonempty, split_on, strings_view,
    text_cmp,
};

verus! {

/// The text of the `..` component.
pub open spec fn parent_component() -> Seq<char> {
    seq!['.', '.']
}

/// The pieces of a sequence that are not `.`, in order.
pub open spec fn drop_dots(pieces: Seq<Seq<char>>) -> Seq<Seq<char>>
    decreases pieces.len(),
{
    if pieces.len() == 0 {
        pieces
    } else {
        let init = drop_dots(pieces.drop_last());
        if pieces.last() == seq!['.'] {
            init
        } else {
            init.push(pieces.last())
        }
    }
}

/// The components of a path: the non-empty pieces between `/` that are not `.`.
pub open spec fn components(p: Seq<char>) -> Seq<Seq<char>> {
    drop_dots(drop_empty(split_on(p, '/')))
}

/// A path that starts at the root.
pub open spec fn is_absolute(p: Seq<char>) -> bool {
    p.len() > 0 && p[0] == '/'
}

/// Components joined by `/`.
pub open spec fn join(cs: Seq<Seq<char>>) -> Seq<char>
    decreases cs.len(),
{
    if cs.len() == 0 {
        Seq::<char>::empty()
    } else if cs.len() == 1 {
        cs[0]
    } else {
        join(cs.drop_last()) + seq!['/'] + cs.last()
    }
}

/// The absolute path with the given components.
pub open spec fn absolute_text(cs: Seq<Seq<char>>) -> Seq<char> {
    seq!['/'] + join(cs)
}

/// A canonical absolute path: it starts at the root, is written in its
/// shortest form, and has no `..` component.
pub open spec fn is_canonical(p: Seq<char>) -> bool {
    &&& is_absolute(p)
    &&& p == absolute_text(components(p))
    &&& forall|i: int|
        0 <= i < components(p).len() ==> #[trigger] components(p)[i] != parent_component()
}

/// The number of leading components that two component lists share.
pub open spec fn common_prefix_len(a: Seq<Seq<char>>, b: Seq<Seq<char>>) -> nat
    decreases a.len(),
{
    if a.len() == 0 || b.len() == 0 || a[0] != b[0] {
        0
    } else {
        1 + common_prefix_len(a.drop_first(), b.drop_first())
    }
}

/// The components that lead from `base` to `path`: one `..` for each
/// component of `base` past the shared prefix, then the rest of `path`.
/// There is none where `base` leaves the shared prefix through a `..`.
pub open spec fn relative_components(path: Seq<Seq<char>>, base: Seq<Seq<char>>) -> Option<
    Seq<Seq<char>>,
> {
    let k = common_prefix_len(path, base);
    if k < path.len() && k < base.len() && base[k as int] == parent_component() {
        None
    } else {
        Some(
            Seq::new((base.len() - k) as nat, |i: int| parent_component()) + path.skip(
                k as int,
            ),
        )
    }
}

/// The path that leads from `base` to `path`. Where only `path` is absolute it
/// is returned as it stands; where only `base` is, there is none.
pub open spec fn relative_path(path: Seq<char>, base: Seq<char>) -> Option<Seq<char>> {
    if is_absolute(path) != is_absolute(base) {
        if is_absolute(path) {
            Some(path)
        } else {
            None
        }
    } else {
        match relative_components(components(path), components(base)) {
            Some(cs) => Some(join(cs)),
            None => None,
        }
    }
}

pub proof fn lemma_common_prefix_len_bound(a: Seq<Seq<char>>, b: Seq<Seq<char>>)
    ensures
        common_prefix_len(a, b) <= a.len(),
        common_prefix_len(a, b) <= b.len(),
        forall|i: int| 0 <= i < common_prefix_len(a, b) ==> a[i] == b[i],
    decreases a.len(),
{
    if !(a.len() == 0 || b.len() == 0 || a[0] != b[0]) {
        lemma_common_prefix_len_bound(a.drop_first(), b.drop_first());
        assert forall|i: int| 0 <= i < common_prefix_len(a, b) implies a[i] == b[i] by {
            if i > 0 {
                assert(a.drop_first()[i - 1] == b.drop_first()[i - 1]);
            }
        }
    }
}

/// Whether the text is exactly `s`, given as a single character.
fn is_one_char(s: &str, c: char) -> (r: bool)
    ensures
        r == (s@ == seq![c]),
{
    if s.unicode_len() == 1 {
        let d = s.get_char(0);
        if d == c {
            assert(s@ =~= seq![c]);
            true
        } else {
            false
        }
    } else {
        false
    }
}

/// Whether the text is the `..` component.
pub fn is_parent_component(s: &str) -> (r: bool)
    ensures
        r == (s@ == parent_component()),
{
    if s.unicode_len() == 2 {
        let a = s.get_char(0);
        let b = s.get_char(1);
        if a == '.' && b == '.' {
            assert(s@ =~= parent_component());
            true
        } else {
            false
        }
    } else {
        false
    }
}

/// Whether the path text starts at the root.
pub fn path_is_absolute(p: &str) -> (r: bool)
    ensures
        r == is_absolute(p@),
{
    p.unicode_len() > 0 && p.get_char(0) == '/'
}

/// The components of a path.
pub fn path_components(p: &str) -> (r: Vec<String>)
    ensures
        strings_view(r@) == components(p@),
{
    let pieces = split_nonempty(p, '/');
    let ghost all = strings_view(pieces@);
    let mut out: Vec<String> = Vec::new();
    let mut i: usize = 0;
    proof {
        assert(all.take(0) =~= Seq::<Seq<char>>::empty());
        assert(strings_view(out@) =~= Seq::<Seq<char>>::empty());
    }
    while i < pieces.len()
        invariant
            all == strings_view(pieces@),
            i <= pieces.len(),
            strings_view(out@) == drop_dots(all.take(i as int)),
        decreases pieces.len() - i,
    {
        proof {
            assert(all.take(i + 1).drop_last() =~= all.take(i as int));
        }
        if !is_one_char(pieces[i].as_str(), '.') {
            let piece = pieces[i].clone();
            proof {
                lemma_strings_view_push(out@, piece);
            }
            out.push(piece);
        }
        i = i + 1;
    }
    proof {
        assert(all.take(pieces.len() as int) =~= all);
    }
    out
}

/// Components joined by `/`.
pub fn join_components(cs: &Vec<String>) -> (r: String)
    ensures
        r@ == join(strings_view(cs@)),
{
    let ghost v = strings_view(cs@);
    let mut out = String::new();
    let mut i: usize = 0;
    while i < cs.len()
        invariant
            v == strings_view(cs@),
            i <= cs.len(),
            out@ == join(v.take(i as int)),
        decreases cs.len() - i,
    {
        proof {
            assert(v.take(i + 1).drop_last() =~= v.take(i as int));
        }
        if i > 0 {
            out.append("/");
            proof {
                reveal_strlit("/");
            }
        } else {
            assert(v.take(1) =~= seq![v[0]]);
        }
        out.append(cs[i].as_str());
        i = i + 1;
    }
    proof {
        assert(v.take(cs.len() as int) =~= v);
    }
    out
}

/// The number of leading components that two component lists share.
fn shared_prefix_len(a: &Vec<String>, b: &Vec<String>) -> (k: usize)
    ensures
        k as nat == common_prefix_len(strings_view(a@), strings_view(b@)),
{
    let ghost va = strings_view(a@);
    let ghost vb = strings_view(b@);
    let mut k: usize = 0;
    proof {
        assert(va.skip(0) =~= va);
        assert(vb.skip(0) =~= vb);
    }
    while k < a.len() && k < b.len() && a[k] == b[k]
        invariant
            va == strings_view(a@),
            vb == strings_view(b@),
            k <= a.len(),
            k <= b.len(),
            common_prefix_len(va, vb) == k + common_prefix_len(va.skip(k as int), vb.skip(
                k as int,
            )),
        decreases a.len() - k,
    {
        proof {
            assert(va.skip(k as int).drop_first() =~= va.skip(k + 1));
            assert(vb.skip(k as int).drop_first() =~= vb.skip(k + 1));
            assert(va.skip(k as int)[0] == va[k as int]);
        }
        k = k + 1;
    }
    proof {
        if k < a.len() && k < b.len() {
            assert(va.skip(k as int)[0] == va[k as int]);
            assert(vb.skip(k as int)[0] == vb[k as int]);
        }
    }
    k
}

/// The path that leads from `base` to `path`, computed component by
/// component (`/foo/bar` from `/foo` is `bar`).
pub fn path_relative_from(path: &str, base: &str) -> (r: Option<String>)
    ensures
        r matches Some(s) ==> relative_path(path@, base@) == Some(s@),
        r is None ==> relative_path(path@, base@) is None,
{
    let path_abs = path_is_absolute(path);
    let base_abs = path_is_absolute(base);
    if path_abs != base_abs {
        if path_abs {
            return Some(String::from_str(path));
        } else {
            return None;
        }
    }
    let a = path_components(path);
    let b = path_components(base);
    let ghost va = strings_view(a@);
    let ghost vb = strings_view(b@);
    let k = shared_prefix_len(&a, &b);
    proof {
        lemma_common_prefix_len_bound(va, vb);
    }
    if k < a.len() && k < b.len() && is_parent_component(b[k].as_str()) {
        return None;
    }
    let mut out: Vec<String> = Vec::new();
    let mut j: usize = k;
    while j < b.len()
        invariant
            va == strings_view(a@),
            vb == strings_view(b@),
            k <= j <= b.len(),
            strings_view(out@) == Seq::new((j - k) as nat, |i: int| parent_component()),
        decreases b.len() - j,
    {
        let up = String::from_str("..");
        proof {
            reveal_strlit("..");
            assert(up@ =~= parent_component());
            lemma_strings_view_push(out@, up);
            assert(Seq::new((j - k) as nat, |i: int| parent_component()).push(up@) =~= Seq::new(
                (j + 1 - k) as nat,
                |i: int| parent_component(),
            ));
        }
        out.push(up);
        j = j + 1;
    }
    let ghost ups = strings_view(out@);
    let mut i: usize = k;
    while i < a.len()
        invariant
            va == strings_view(a@),
            k <= i <= a.len(),
            strings_view(out@) == ups + va.subrange(k as int, i as int),
        decreases a.len() - i,
    {
        let piece = a[i].clone();
        proof {
            lemma_strings_view_push(out@, piece);
            assert(ups + va.subrange(k as int, i + 1) =~= (ups + va.subrange(k as int, i as int)).push(
                piece@,
            ));
        }
        out.push(piece);
        i = i + 1;
    }
    proof {
        assert(va.subrange(k as int, a.len() as int) =~= va.skip(k as int));
    }
    Some(join_components(&out))
}

/// Why a path could not be made an absolute path.
#[derive(Debug, Clone, Copy, PartialEq, Eq, Structural)]
pub enum PathError {
    /// Nothing exists at the path.
    NotFound,
    /// The text is not a canonical absolute path.
    NotCanonical,
}

/// A canonical absolute path to a file or directory, ordered by its text.
#[derive(Debug)]
pub struct AbsPath {
    inner: String,
}

impl View for AbsPath {
    type V = Seq<char>;

    closed spec fn view(&self) -> Seq<char> {
        self.inner@
    }
}

impl Clone for AbsPath {
    fn clone(&self) -> (r: Self)
        ensures
            r@ == self@,
    {
        proof {
            use_type_invariant(self);
        }
        AbsPath { inner: self.inner.clone() }
    }
}

impl PartialEq for AbsPath {
    fn eq(&self, other: &AbsPath) -> (r: bool) {
        self.inner == other.inner
    }
}

impl vstd::std_specs::cmp::PartialEqSpecImpl for AbsPath {
    open spec fn obeys_eq_spec() -> bool {
        true
    }

    open spec fn eq_spec(&self, other: &AbsPath) -> bool {
        self@ == other@
    }
}

/// The directory that holds `p`; the root is its own parent.
pub open spec fn parent_text(p: Seq<char>) -> Seq<char> {
    if components(p).len() == 0 {
        p
    } else {
        absolute_text(components(p).drop_last())
    }
}

impl AbsPath {
    #[verifier::type_invariant]
    spec fn inv(self) -> bool {
        is_canonical(self.inner@)
    }

    /// Takes a path that has already been resolved on disk; it must be a
    /// canonical absolute path.
    pub fn new(canonical: String) -> (r: Result<AbsPath, PathError>)
        ensures
            r is Ok <==> is_canonical(canonical@),
            r matches Ok(p) ==> p@ == canonical@,
            r matches Err(e) ==> e == PathError::NotCanonical,
    {
        if !path_is_absolute(canonical.as_str()) {
            return Err(PathError::NotCanonical);
        }
        let comps = path_components(canonical.as_str());
        let ghost cs = strings_view(comps@);
        let mut i: usize = 0;
        while i < comps.len()
            invariant
                cs == strings_view(comps@),
                cs == components(canonical@),
                i <= comps.len(),
                forall|j: int| 0 <= j < i ==> #[trigger] cs[j] != parent_component(),
            decreases comps.len() - i,
        {
            if is_parent_component(comps[i].as_str()) {
                assert(components(canonical@)[i as int] == parent_component());
                return Err(PathError::NotCanonical);
            }
            i = i + 1;
        }
        let mut rebuilt = String::from_str("/");
        let joined = join_components(&comps);
        rebuilt.append(joined.as_str());
        proof {
            reveal_strlit("/");
            assert(rebuilt@ == absolute_text(components(canonical@)));
            assert(forall|j: int|
                0 <= j < components(canonical@).len() ==> #[trigger] components(canonical@)[j]
                    != parent_component());
        }
        if rebuilt == canonical {
            Ok(AbsPath { inner: canonical })
        } else {
            Err(PathError::NotCanonical)
        }
    }

    /// The text of the path.
    pub fn as_pathbuf(&self) -> (r: &str)
        ensures
            r@ == self@,
    {
        self.inner.as_str()
    }

    /// Lexicographic comparison of the texts of two paths.
    pub fn compare(&self, other: &AbsPath) -> (r: i8)
        ensures
            r as int == text_cmp(self@, other@),
    {
        compare_text(self.inner.as_str(), other.inner.as_str())
    }

    /// The directory that holds this path.
    pub fn parent(&self) -> (r: String)
        ensures
            r@ == parent_text(self@),
    {
        let mut comps = path_components(self.inner.as_str());
        if comps.len() == 0 {
            return self.inner.clone();
        }
        let ghost before = strings_view(comps@);
        comps.pop();
        proof {
            assert(strings_view(comps@) =~= before.drop_last());
            reveal_strlit("/");
        }
        let mut out = String::from_str("/");
        let joined = join_components(&comps);
        out.append(joined.as_str());
        out
    }
}

/// The path to show for a file a linter reported: relative to `current_dir`
/// where the file was resolved on disk (`resolved`), else the path as the
/// linter gave it.
pub fn get_display_path(path: &str, resolved: &Option<AbsPath>, current_dir: &str) -> (r: String)
    ensures
        r@ == match resolved {
            Some(p) => match relative_path(p@, current_dir@) {
                Some(rel) => rel,
                None => path@,
            },
            None => path@,
        },
{
    match resolved {
        Some(p) => match path_relative_from(p.as_pathbuf(), current_dir) {
            Some(rel) => rel,
            None => String::from_str(path),
        },
        None => String::from_str(path),
    }
}

} // verus!
