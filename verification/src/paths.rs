//! Destination-path validation.
//!
//! A destination is accepted only when it is absolute and already in
//! canonical form: no `.` or `..` elements and no redundant separators.
//! An authorization layer outside this tool (for example a sudo rule scoped
//! to a path prefix) reasons about the literal argument string, so a path
//! that would land somewhere else after cleaning is rejected, never
//! silently rewritten.

use vstd::prelude::*;
use vstd::string::StrSliceExecFns;

use crate::errors::WriteError;

verus! {

/// A path is absolute when it starts at the filesystem root.
pub open spec fn is_absolute(s: Seq<char>) -> bool {
    s.len() > 0 && s[0] == '/'
}

/// Two separators in a row somewhere in the path.
pub open spec fn has_doubled_separator(s: Seq<char>) -> bool {
    exists|i: int| 0 <= i && i + 1 < s.len() && #[trigger] s[i] == '/' && s[i + 1] == '/'
}

/// A separator at the very end of a path longer than the root itself.
pub open spec fn has_trailing_separator(s: Seq<char>) -> bool {
    s.len() > 1 && s[s.len() - 1] == '/'
}

/// A path element that is exactly `.` begins at index `i`.
pub open spec fn dot_element_at(s: Seq<char>, i: int) -> bool {
    &&& 0 <= i < s.len()
    &&& s[i] == '.'
    &&& (i == 0 || s[i - 1] == '/')
    &&& (i + 1 == s.len() || s[i + 1] == '/')
}

/// A path element that is exactly `..` begins at index `i`.
pub open spec fn dotdot_element_at(s: Seq<char>, i: int) -> bool {
    &&& 0 <= i && i + 1 < s.len()
    &&& s[i] == '.'
    &&& s[i + 1] == '.'
    &&& (i == 0 || s[i - 1] == '/')
    &&& (i + 2 == s.len() || s[i + 2] == '/')
}

pub open spec fn has_dot_element(s: Seq<char>) -> bool {
    exists|i: int| dot_element_at(s, i)
}

pub open spec fn has_dotdot_element(s: Seq<char>) -> bool {
    exists|i: int| dotdot_element_at(s, i)
}

/// An absolute path in canonical form: lexical cleaning would leave it
/// unchanged.
pub open spec fn is_canonical(s: Seq<char>) -> bool {
    &&& is_absolute(s)
    &&& !has_doubled_separator(s)
    &&& !has_trailing_separator(s)
    &&& !has_dot_element(s)
    &&& !has_dotdot_element(s)
}

/// The lexically cleaned form of a path.
pub uninterp spec fn cleaned_of(s: Seq<char>) -> Seq<char>;

/// Relies on `path_clean::clean`: it lexically collapses repeated
/// separators, drops a trailing separator, and eliminates `.` elements and
/// `..` elements together with the element before them, so an absolute path
/// comes back unchanged exactly when it is already in canonical form.
#[verifier::external_body]
fn cleaned_form(path: &str) -> (r: String)
    ensures
        r@ == cleaned_of(path@),
        is_absolute(path@) ==> ((r@ == path@) <==> is_canonical(path@)),
{
    path_clean::clean(path).to_string_lossy().into_owned()
}

/// An absolute filesystem path containing no `.` or `..` elements and no
/// redundant separators.  Built by [`validate`] and never repaired: a raw
/// path that is not already canonical is rejected.
#[derive(Debug)]
pub struct CanonicalPath {
    path: String,
}

impl View for CanonicalPath {
    type V = Seq<char>;

    closed spec fn view(&self) -> Seq<char> {
        self.path@
    }
}

impl CanonicalPath {
    /// The invariant every constructed value carries.
    pub open spec fn wf(&self) -> bool {
        is_canonical(self@)
    }

    pub fn as_str(&self) -> (r: &str)
        ensures
            r@ == self@,
    {
        self.path.as_str()
    }

    /// An owned copy of the same path.
    pub fn duplicate(&self) -> (r: CanonicalPath)
        ensures
            r@ == self@,
            self.wf() ==> r.wf(),
    {
        CanonicalPath { path: self.path.clone() }
    }
}

/// Accepts exactly the absolute, canonical destination paths and returns
/// them unchanged; anything else is rejected with the reason.
pub fn validate(path: &str) -> (r: Result<CanonicalPath, WriteError>)
    ensures
        r is Ok <==> is_canonical(path@),
        match r {
            Ok(p) => p@ == path@ && p.wf(),
            Err(e) => {
                &&& (e == WriteError::NotAbsolute || e == WriteError::NotCanonical)
                &&& (e == WriteError::NotAbsolute <==> !is_absolute(path@))
            },
        },
{
    if path.is_empty() || path.get_char(0) != '/' {
        return Err(WriteError::NotAbsolute);
    }
    let cleaned = cleaned_form(path);
    let owned: String = path.to_owned();
    if cleaned != owned {
        return Err(WriteError::NotCanonical);
    }
    Ok(CanonicalPath { path: owned })
}

/// A path with a doubled separator, a `.` element, or a `..` element is not
/// canonical, so `validate` rejects it; validation is a pure function and
/// touches nothing on disk.
pub proof fn lemma_unclean_path_not_canonical(s: Seq<char>)
    requires
        has_doubled_separator(s) || has_dot_element(s) || has_dotdot_element(s),
    ensures
        !is_canonical(s),
{
}

/// The index of the last separator in the path.
pub open spec fn last_slash_index(s: Seq<char>) -> int
    decreases s.len(),
{
    if s.len() == 0 {
        -1
    } else if s[s.len() - 1] == '/' {
        s.len() - 1
    } else {
        last_slash_index(s.drop_last())
    }
}

/// The directory part of a canonical path: everything before the last
/// separator, or the root when the last separator is the leading one.
pub open spec fn parent_seq(s: Seq<char>) -> Seq<char> {
    if last_slash_index(s) <= 0 {
        seq!['/']
    } else {
        s.subrange(0, last_slash_index(s))
    }
}

/// `q` is an ancestor of `s` (or `s` itself): a prefix that ends right
/// before a separator, or the root, or the whole path.
pub open spec fn is_ancestor_prefix(s: Seq<char>, q: Seq<char>) -> bool {
    &&& 1 <= q.len() <= s.len()
    &&& q == s.subrange(0, q.len() as int)
    &&& (q.len() == 1 || q.len() == s.len() || s[q.len() as int] == '/')
}

proof fn lemma_last_slash_at(s: Seq<char>, j: int)
    requires
        0 <= j < s.len(),
        s[j] == '/',
        forall|k: int| j < k < s.len() ==> s[k] != '/',
    ensures
        last_slash_index(s) == j,
    decreases s.len(),
{
    if j < s.len() - 1 {
        assert(s.drop_last()[j] == s[j]);
        assert(forall|k: int| j < k < s.len() - 1 ==> s.drop_last()[k] == s[k]);
        lemma_last_slash_at(s.drop_last(), j);
    }
}

/// The root by itself is canonical.
proof fn lemma_root_canonical()
    ensures
        is_canonical(seq!['/']),
{
    let s = seq!['/'];
    assert(s.len() == 1 && s[0] == '/');
    assert(!has_dot_element(s)) by {
        if has_dot_element(s) {
            let i = choose|i: int| dot_element_at(s, i);
            assert(s[i] == '.');
        }
    }
    assert(!has_dotdot_element(s)) by {
        if has_dotdot_element(s) {
            let i = choose|i: int| dotdot_element_at(s, i);
            assert(s[i] == '.');
        }
    }
}

/// An ancestor prefix of a canonical path is itself canonical.
pub proof fn lemma_prefix_canonical(s: Seq<char>, j: int)
    requires
        is_canonical(s),
        1 <= j <= s.len(),
        j == 1 || j == s.len() || s[j] == '/',
    ensures
        is_canonical(s.subrange(0, j)),
{
    let q = s.subrange(0, j);
    if j == 1 {
        assert(q =~= seq!['/']);
        lemma_root_canonical();
    } else {
        assert(is_absolute(q));
        assert(!has_doubled_separator(q)) by {
            if has_doubled_separator(q) {
                let i = choose|i: int|
                    0 <= i && i + 1 < q.len() && #[trigger] q[i] == '/' && q[i + 1] == '/';
                assert(s[i] == '/' && s[i + 1] == '/');
            }
        }
        assert(!has_trailing_separator(q)) by {
            if q[j - 1] == '/' {
                assert(s[j - 1] == '/');
                if j == s.len() {
                    assert(has_trailing_separator(s));
                } else {
                    assert(s[j] == '/');
                    assert(has_doubled_separator(s));
                }
            }
        }
        assert(!has_dot_element(q)) by {
            if has_dot_element(q) {
                let i = choose|i: int| dot_element_at(q, i);
                assert(q[i] == s[i]);
                if i > 0 {
                    assert(q[i - 1] == s[i - 1]);
                }
                if i + 1 < j {
                    assert(q[i + 1] == s[i + 1]);
                }
                assert(dot_element_at(s, i));
            }
        }
        assert(!has_dotdot_element(q)) by {
            if has_dotdot_element(q) {
                let i = choose|i: int| dotdot_element_at(q, i);
                assert(q[i] == s[i] && q[i + 1] == s[i + 1]);
                if i > 0 {
                    assert(q[i - 1] == s[i - 1]);
                }
                if i + 2 < j {
                    assert(q[i + 2] == s[i + 2]);
                }
                assert(dotdot_element_at(s, i));
            }
        }
    }
}

/// The directory that holds the destination: `None` only for the root
/// itself, otherwise the canonical parent path.
pub fn parent_dir(p: &CanonicalPath) -> (r: Option<CanonicalPath>)
    requires
        p.wf(),
    ensures
        match r {
            None => p@.len() == 1,
            Some(q) => {
                &&& q@ == parent_seq(p@)
                &&& q.wf()
                &&& is_ancestor_prefix(p@, q@)
                &&& q@.len() < p@.len()
            },
        },
{
    let s = p.as_str();
    let n = s.unicode_len();
    if n == 1 {
        return None;
    }
    let mut j: usize = n - 1;
    while s.get_char(j) != '/'
        invariant
            n == p@.len(),
            s@ == p@,
            p.wf(),
            2 <= n,
            0 <= j < n,
            forall|k: int| j < k < n ==> p@[k] != '/',
        decreases j,
    {
        proof {
            assert(p@[0] == '/');
        }
        j = j - 1;
    }
    proof {
        lemma_last_slash_at(p@, j as int);
    }
    if j == 0 {
        let root = CanonicalPath { path: s.substring_char(0, 1).to_owned() };
        proof {
            assert(p@.subrange(0, 1) =~= seq!['/']);
            lemma_root_canonical();
        }
        Some(root)
    } else {
        proof {
            assert(j != 1) by {
                if j == 1 {
                    assert(p@[0] == '/' && p@[1] == '/');
                }
            }
            lemma_prefix_canonical(p@, j as int);
        }
        let q = CanonicalPath { path: s.substring_char(0, j).to_owned() };
        Some(q)
    }
}

/// No separator anywhere in the string.
pub open spec fn has_no_separator(s: Seq<char>) -> bool {
    forall|i: int| 0 <= i < s.len() ==> #[trigger] s[i] != '/'
}

proof fn lemma_last_slash_bounds(s: Seq<char>)
    ensures
        -1 <= last_slash_index(s) < s.len(),
    decreases s.len(),
{
    if s.len() > 0 && s[s.len() - 1] != '/' {
        lemma_last_slash_bounds(s.drop_last());
    }
}

proof fn lemma_last_slash_append(dest: Seq<char>, suffix: Seq<char>)
    requires
        is_absolute(dest),
        has_no_separator(suffix),
    ensures
        last_slash_index(dest + suffix) == last_slash_index(dest),
    decreases suffix.len(),
{
    if suffix.len() == 0 {
        assert(dest + suffix =~= dest);
    } else {
        let t = dest + suffix;
        assert(t[t.len() - 1] == suffix[suffix.len() - 1]);
        assert(t[t.len() - 1] != '/');
        assert(t.drop_last() =~= dest + suffix.drop_last());
        assert(has_no_separator(suffix.drop_last())) by {
            assert(forall|i: int| 0 <= i < suffix.len() - 1
                ==> #[trigger] suffix.drop_last()[i] == suffix[i]);
        }
        lemma_last_slash_append(dest, suffix.drop_last());
    }
}

/// Appending a separator-free suffix to a path does not move it out of its
/// directory: the parent stays the same.
pub proof fn lemma_append_same_parent(dest: Seq<char>, suffix: Seq<char>)
    requires
        is_absolute(dest),
        has_no_separator(suffix),
    ensures
        parent_seq(dest + suffix) == parent_seq(dest),
{
    lemma_last_slash_append(dest, suffix);
    lemma_last_slash_bounds(dest);
    let j = last_slash_index(dest);
    if j > 0 {
        assert((dest + suffix).subrange(0, j) =~= dest.subrange(0, j));
    }
}

/// The temporary file the content is streamed into before the rename: right
/// beside the destination, so the rename is a same-filesystem atomic
/// replace, and never the destination path itself.  `tag` makes concurrent
/// invocations use distinct names; any separator-free tag will do.
pub fn temp_path_for(dest: &CanonicalPath, tag: &str) -> (r: String)
    requires
        dest.wf(),
        has_no_separator(tag@),
    ensures
        r@ == dest@ + ".tmp."@ + tag@,
        r@ != dest@,
        parent_seq(r@) == parent_seq(dest@),
{
    let base: String = dest.as_str().to_owned();
    let with_suffix: String = base.concat(".tmp.");
    let r: String = with_suffix.concat(tag);
    proof {
        reveal_strlit(".tmp.");
        let suffix = ".tmp."@ + tag@;
        assert(has_no_separator(suffix)) by {
            assert(forall|i: int| 0 <= i < 5 ==> #[trigger] suffix[i] != '/');
            assert(forall|i: int| 5 <= i < suffix.len() ==> #[trigger] suffix[i] == tag@[i - 5]);
        }
        assert(r@ =~= dest@ + suffix);
        lemma_append_same_parent(dest@, suffix);
        assert(r@.len() > dest@.len());
    }
    r
}

/// The views of a list of canonical paths.
pub open spec fn prefix_views(r: Seq<CanonicalPath>) -> Seq<Seq<char>> {
    r.map_values(|p: CanonicalPath| p@)
}

/// Every prefix of the target directory from the root downward, in order:
/// the root first, then each ancestor, ending with the directory itself.
/// The walk that creates missing directories visits exactly this list.
pub fn dir_prefixes(dir: &CanonicalPath) -> (r: Vec<CanonicalPath>)
    requires
        dir.wf(),
    ensures
        r@.len() >= 1,
        forall|k: int| 0 <= k < r@.len() ==> (#[trigger] r@[k]).wf() && is_ancestor_prefix(
            dir@,
            r@[k]@,
        ),
        forall|k: int| 0 <= k < r@.len() - 1 ==> (#[trigger] r@[k]@).len() < r@[k + 1]@.len(),
        r@[0]@ == seq!['/'],
        r@[r@.len() - 1]@ == dir@,
        forall|j: int|
            1 < j < dir@.len() && #[trigger] dir@[j] == '/' ==> prefix_views(r@).contains(
                dir@.subrange(0, j),
            ),
{
    let s = dir.as_str();
    let n = s.unicode_len();
    let mut r: Vec<CanonicalPath> = Vec::new();
    let root = CanonicalPath { path: s.substring_char(0, 1).to_owned() };
    proof {
        assert(dir@.subrange(0, 1) =~= seq!['/']);
        lemma_root_canonical();
    }
    r.push(root);
    if n == 1 {
        proof {
            assert(r@[0]@ == dir@);
        }
        return r;
    }
    let mut i: usize = 2;
    while i < n
        invariant
            n == dir@.len(),
            s@ == dir@,
            dir.wf(),
            2 <= i <= n,
            1 <= r@.len(),
            forall|k: int| 0 <= k < r@.len() ==> (#[trigger] r@[k]).wf() && is_ancestor_prefix(
                dir@,
                r@[k]@,
            ),
            forall|k: int| 0 <= k < r@.len() - 1 ==> (#[trigger] r@[k]@).len() < r@[k + 1]@.len(),
            r@[0]@ == seq!['/'],
            r@[r@.len() - 1]@.len() < i,
            forall|j: int|
                1 < j < i && #[trigger] dir@[j] == '/' ==> prefix_views(r@).contains(
                    dir@.subrange(0, j),
                ),
        decreases n - i,
    {
        if s.get_char(i) == '/' {
            proof {
                lemma_prefix_canonical(dir@, i as int);
            }
            let q = CanonicalPath { path: s.substring_char(0, i).to_owned() };
            let ghost old_r = r@;
            r.push(q);
            proof {
                assert(forall|k: int| 0 <= k < old_r.len() ==> r@[k] == old_r[k]);
                assert(forall|q2: Seq<char>| prefix_views(old_r).contains(q2)
                    ==> #[trigger] prefix_views(r@).contains(q2)) by {
                    assert forall|q2: Seq<char>| prefix_views(old_r).contains(q2)
                        implies #[trigger] prefix_views(r@).contains(q2) by {
                        let k = choose|k: int|
                            0 <= k < prefix_views(old_r).len() && prefix_views(old_r)[k] == q2;
                        assert(prefix_views(r@)[k] == q2);
                    }
                }
                assert(prefix_views(r@)[r@.len() - 1] == dir@.subrange(0, i as int));
                assert(prefix_views(r@).contains(dir@.subrange(0, i as int)));
            }
        }
        i = i + 1;
    }
    let full = dir.duplicate();
    let ghost old_r = r@;
    r.push(full);
    proof {
        assert(dir@.subrange(0, dir@.len() as int) =~= dir@);
        assert(forall|k: int| 0 <= k < old_r.len() ==> r@[k] == old_r[k]);
        assert(forall|q2: Seq<char>| prefix_views(old_r).contains(q2) ==> #[trigger] prefix_views(
            r@,
        ).contains(q2)) by {
            assert forall|q2: Seq<char>| prefix_views(old_r).contains(q2)
                implies #[trigger] prefix_views(r@).contains(q2) by {
                let k = choose|k: int|
                    0 <= k < prefix_views(old_r).len() && prefix_views(old_r)[k] == q2;
                assert(prefix_views(r@)[k] == q2);
            }
        }
    }
    r
}

} // verus!
