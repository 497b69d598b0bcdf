//! Repository discovery and repository-relative paths. Paths are text with
//! `/` between components; the filesystem is consulted by the caller, which
//! hands over what it found.
use crate::error::KvcError;
use crate::text::chars_of;
use vstd::prelude::*;

verus! {

/// `name` inside directory `dir`.
pub open spec fn join_path(dir: Seq<char>, name: Seq<char>) -> Seq<char> {
    dir + seq!['/'] + name
}

pub open spec fn is_last_slash(p: Seq<char>, i: int) -> bool {
    0 <= i < p.len() && p[i] == '/' && forall|j: int| i < j < p.len() ==> p[j] != '/'
}

/// The directory that holds `p`: everything before its last `/`, or `/`
/// itself when that slash is the first character. `None` for `/` and for a
/// path without a slash.
pub open spec fn parent_of(p: Seq<char>) -> Option<Seq<char>> {
    if exists|i: int| is_last_slash(p, i) {
        let i = choose|i: int| is_last_slash(p, i);
        if i == 0 {
            if p.len() == 1 {
                None
            } else {
                Some(seq!['/'])
            }
        } else {
            Some(p.subrange(0, i))
        }
    } else {
        None
    }
}

/// `p` followed by each of its ancestors up to the filesystem root, nearest
/// first: the directories where a repository root is looked for.
pub open spec fn ancestor_chain(p: Seq<char>) -> Seq<Seq<char>>
    decreases p.len(),
{
    match parent_of(p) {
        Some(q) => if q.len() < p.len() {
            seq![p] + ancestor_chain(q)
        } else {
            seq![p]
        },
        None => seq![p],
    }
}

/// What looking for the metadata folder inside one candidate directory found.
#[derive(Clone, Copy, Debug, PartialEq, Eq, Structural)]
pub enum Probe {
    /// The metadata folder is there.
    Found,
    /// It is not.
    Absent,
    /// The directory could not be read.
    Unreadable,
}

/// The repository root among `chain`, given what was found in each: the
/// first candidate with the metadata folder, unless an unreadable one comes
/// before it.
pub open spec fn locate(chain: Seq<Seq<char>>, probes: Seq<Probe>) -> Option<Seq<char>>
    decreases chain.len(),
{
    if chain.len() == 0 || probes.len() == 0 {
        None
    } else {
        match probes[0] {
            Probe::Found => Some(chain[0]),
            Probe::Unreadable => None,
            Probe::Absent => locate(chain.drop_first(), probes.drop_first()),
        }
    }
}

proof fn lemma_last_slash_unique(p: Seq<char>, i: int, j: int)
    requires
        is_last_slash(p, i),
        is_last_slash(p, j),
    ensures
        i == j,
{
    if i < j {
        assert(p[j] == '/');
    }
    if j < i {
        assert(p[i] == '/');
    }
}

proof fn lemma_parent_shorter(p: Seq<char>)
    ensures
        parent_of(p) matches Some(q) ==> q.len() < p.len(),
{
}

/// The parent of `name` inside a non-empty `dir` is `dir`.
pub proof fn lemma_parent_of_join(dir: Seq<char>, name: Seq<char>)
    requires
        dir.len() > 0,
        name.len() > 0,
        forall|i: int| 0 <= i < name.len() ==> name[i] != '/',
    ensures
        parent_of(join_path(dir, name)) == Some(dir),
{
    let p = join_path(dir, name);
    let n = dir.len() as int;
    assert(p[n] == '/');
    assert forall|j: int| n < j < p.len() implies p[j] != '/' by {
        assert(p[j] == name[j - n - 1]);
    }
    assert(is_last_slash(p, n));
    let i = choose|i: int| is_last_slash(p, i);
    lemma_last_slash_unique(p, i, n);
    assert(p.subrange(0, n) =~= dir);
}

/// The directory that holds `path`, as `parent_of` gives it.
pub fn parent_dir(path: &str) -> (r: Option<String>)
    ensures
        match parent_of(path@) {
            Some(q) => r matches Some(s) && s@ == q,
            None => r is None,
        },
{
    let cs = chars_of(path);
    let n = cs.len();
    let mut i: usize = n;
    while i > 0
        invariant
            cs@ == path@,
            n == cs@.len(),
            i <= n,
            forall|j: int| i <= j < n ==> cs@[j] != '/',
        decreases i,
    {
        if cs[i - 1] == '/' {
            let k = i - 1;
            proof {
                assert(is_last_slash(path@, k as int));
                let c = choose|c: int| is_last_slash(path@, c);
                lemma_last_slash_unique(path@, c, k as int);
            }
            if k == 0 {
                if n == 1 {
                    return None;
                }
                proof {
                    reveal_strlit("/");
                }
                return Some("/".to_owned());
            }
            return Some(path.substring_char(0, k).to_owned());
        }
        i = i - 1;
    }
    None
}

/// `path` and each of its ancestors, nearest first: the directories in which
/// to look for the metadata folder, in the order `get_kvc_root_folder` takes
/// them.
pub fn candidate_roots(path: &str) -> (r: Vec<String>)
    ensures
        r@.map_values(|s: String| s@) == ancestor_chain(path@),
{
    let mut out: Vec<String> = Vec::new();
    let mut cur: String = path.to_owned();
    loop
        invariant
            ancestor_chain(path@) == out@.map_values(|s: String| s@) + ancestor_chain(cur@),
        decreases cur@.len(),
    {
        let ghost before = out@;
        let next = parent_dir(cur.as_str());
        match next {
            Some(q) => {
                if q.unicode_len() < cur.unicode_len() {
                    let ghost c = cur@;
                    out.push(cur);
                    assert(out@.map_values(|s: String| s@) =~= before.map_values(|s: String| s@).push(c));
                    assert(ancestor_chain(c) == seq![c] + ancestor_chain(q@));
                    assert(ancestor_chain(path@) =~= out@.map_values(|s: String| s@) + ancestor_chain(q@));
                    cur = q;
                } else {
                    proof {
                        lemma_parent_shorter(cur@);
                    }
                    let ghost c = cur@;
                    out.push(cur);
                    assert(out@.map_values(|s: String| s@) =~= before.map_values(|s: String| s@).push(c));
                    assert(ancestor_chain(path@) =~= out@.map_values(|s: String| s@));
                    return out;
                }
            },
            None => {
                let ghost c = cur@;
                out.push(cur);
                assert(out@.map_values(|s: String| s@) =~= before.map_values(|s: String| s@).push(c));
                assert(ancestor_chain(path@) =~= out@.map_values(|s: String| s@));
                return out;
            },
        }
    }
}

/// Finds the repository root for a start directory `path`. `probes[i]` is
/// what looking for the metadata folder in the `i`-th of
/// `candidate_roots(path)` found. Returns `(true, root)` for the first
/// candidate where it was found; `(false, "")` when none was, or when an
/// unreadable directory comes first. Nothing is created or changed.
pub fn get_kvc_root_folder(path: &str, probes: &Vec<Probe>) -> (r: (bool, String))
    requires
        probes@.len() == ancestor_chain(path@).len(),
    ensures
        match locate(ancestor_chain(path@), probes@) {
            Some(root) => r.0 && r.1@ == root,
            None => !r.0 && r.1@.len() == 0,
        },
{
    let mut cur: String = path.to_owned();
    let mut i: usize = 0;
    let ghost chain = ancestor_chain(path@);
    assert(chain.subrange(0, chain.len() as int) =~= chain);
    assert(probes@.subrange(0, probes@.len() as int) =~= probes@);
    while i < probes.len()
        invariant
            chain == ancestor_chain(path@),
            probes@.len() == chain.len(),
            i <= chain.len(),
            i < chain.len() ==> ancestor_chain(cur@) == chain.subrange(i as int, chain.len() as int),
            locate(chain, probes@) == locate(
                chain.subrange(i as int, chain.len() as int),
                probes@.subrange(i as int, probes@.len() as int),
            ),
        decreases chain.len() - i,
    {
        let ghost rest = chain.subrange(i as int, chain.len() as int);
        let ghost prest = probes@.subrange(i as int, probes@.len() as int);
        assert(rest[0] == cur@);
        match probes[i] {
            Probe::Found => {
                return (true, cur);
            },
            Probe::Unreadable => {
                return (false, String::new());
            },
            Probe::Absent => {
                assert(rest.drop_first() =~= chain.subrange(i + 1, chain.len() as int));
                assert(prest.drop_first() =~= probes@.subrange(i + 1, probes@.len() as int));
                if i + 1 < probes.len() {
                    match parent_dir(cur.as_str()) {
                        Some(q) => {
                            proof {
                                lemma_parent_shorter(cur@);
                                assert(ancestor_chain(cur@) == seq![cur@] + ancestor_chain(q@));
                                assert(ancestor_chain(q@) =~= rest.drop_first());
                            }
                            cur = q;
                        },
                        None => {
                            assert(ancestor_chain(cur@).len() == 1);
                            assert(false);
                        },
                    }
                }
            },
        }
        i = i + 1;
    }
    (false, String::new())
}

/// `path` with the directory `root` taken off its front, as a relative path:
/// empty when `path` is `root` itself. `None` when `path` is not inside
/// `root`.
pub open spec fn strip_root(root: Seq<char>, path: Seq<char>) -> Option<Seq<char>> {
    if path == root {
        Some(seq![])
    } else if root.len() > 0 && root.last() == '/' && root.len() <= path.len()
        && path.subrange(0, root.len() as int) == root {
        Some(path.subrange(root.len() as int, path.len() as int))
    } else if root.len() < path.len() && path.subrange(0, root.len() as int) == root
        && path[root.len() as int] == '/' {
        Some(path.subrange(root.len() as int + 1, path.len() as int))
    } else {
        None
    }
}

/// The repository-relative form of `path`, given relative to the directory
/// `cur_dir` (or absolute), in the repository at `root`: both are
/// normalised first, so `.` and `..` are resolved.
pub open spec fn relative_to_root(root: Seq<char>, cur_dir: Seq<char>, path: Seq<char>) -> Option<
    Seq<char>,
> {
    strip_root(normalize(root), normalize(absolute_target(cur_dir, path)))
}

/// `path` as seen from `cur_dir`: itself when absolute, else joined to it.
pub open spec fn absolute_target(cur_dir: Seq<char>, path: Seq<char>) -> Seq<char> {
    if path.len() > 0 && path[0] == '/' {
        path
    } else {
        join_path(cur_dir, path)
    }
}

/// The component stack after taking one more component: empty and `.`
/// components are dropped, and `..` removes the last one (none is left above
/// the top).
pub open spec fn push_component(stack: Seq<Seq<char>>, comp: Seq<char>) -> Seq<Seq<char>> {
    if comp.len() == 0 || comp == seq!['.'] {
        stack
    } else if comp == seq!['.', '.'] {
        if stack.len() > 0 {
            stack.drop_last()
        } else {
            stack
        }
    } else {
        stack.push(comp)
    }
}

/// Reading `s` left to right: the components taken so far and the one still
/// being read.
pub open spec fn scan_components(s: Seq<char>) -> (Seq<Seq<char>>, Seq<char>)
    decreases s.len(),
{
    if s.len() == 0 {
        (seq![], seq![])
    } else {
        let (stack, cur) = scan_components(s.drop_last());
        if s.last() == '/' {
            (push_component(stack, cur), seq![])
        } else {
            (stack, cur.push(s.last()))
        }
    }
}

/// The components of `s` with `.` and `..` resolved.
pub open spec fn components(s: Seq<char>) -> Seq<Seq<char>> {
    push_component(scan_components(s).0, scan_components(s).1)
}

/// Components joined with a `/` between each two.
pub open spec fn join_components(cs: Seq<Seq<char>>) -> Seq<char>
    decreases cs.len(),
{
    if cs.len() == 0 {
        seq![]
    } else if cs.len() == 1 {
        cs[0]
    } else {
        join_components(cs.drop_last()) + seq!['/'] + cs.last()
    }
}

/// `p` with `.`, `..` and repeated or trailing slashes resolved without
/// consulting the filesystem; an absolute path stays absolute.
pub open spec fn normalize(p: Seq<char>) -> Seq<char> {
    if p.len() > 0 && p[0] == '/' {
        seq!['/'] + join_components(components(p))
    } else {
        join_components(components(p))
    }
}

pub open spec fn string_views(v: Seq<String>) -> Seq<Seq<char>> {
    v.map_values(|s: String| s@)
}

fn push_part(stack: &mut Vec<String>, path: &str, cs: &Vec<char>, start: usize, end: usize)
    requires
        cs@ == path@,
        start <= end <= cs@.len(),
    ensures
        string_views(final(stack)@) == push_component(
            string_views(old(stack)@),
            path@.subrange(start as int, end as int),
        ),
{
    let ghost comp = path@.subrange(start as int, end as int);
    let ghost before = string_views(stack@);
    let len = end - start;
    if len == 0 {
        return ;
    }
    if len == 1 && cs[start] == '.' {
        assert(comp =~= seq!['.']);
        return ;
    }
    if len == 2 && cs[start] == '.' && cs[start + 1] == '.' {
        assert(comp =~= seq!['.', '.']);
        if stack.len() > 0 {
            stack.pop();
            assert(string_views(stack@) =~= before.drop_last());
        }
        return ;
    }
    if len == 1 {
        assert(comp[0] != seq!['.'][0]);
    }
    if len == 2 {
        assert(comp[0] != seq!['.', '.'][0] || comp[1] != seq!['.', '.'][1]);
    }
    assert(comp != seq!['.']);
    assert(comp != seq!['.', '.']);
    let part = path.substring_char(start, end).to_owned();
    stack.push(part);
    assert(string_views(stack@) =~= before.push(comp));
}

/// `path` normalised as `normalize` says.
pub fn normalize_path(path: &str) -> (r: String)
    ensures
        r@ == normalize(path@),
{
    let cs = chars_of(path);
    let n = cs.len();
    let mut stack: Vec<String> = Vec::new();
    let mut start: usize = 0;
    let mut i: usize = 0;
    assert(path@.subrange(0, 0) =~= Seq::<char>::empty());
    assert(string_views(stack@) =~= Seq::<Seq<char>>::empty());
    while i < n
        invariant
            cs@ == path@,
            n == cs@.len(),
            start <= i <= n,
            scan_components(path@.subrange(0, i as int)) == (
                string_views(stack@),
                path@.subrange(start as int, i as int),
            ),
        decreases n - i,
    {
        assert(path@.subrange(0, i + 1).drop_last() =~= path@.subrange(0, i as int));
        if cs[i] == '/' {
            push_part(&mut stack, path, &cs, start, i);
            start = i + 1;
            assert(path@.subrange(start as int, i + 1) =~= Seq::<char>::empty());
        } else {
            assert(path@.subrange(start as int, i + 1) =~= path@.subrange(start as int, i as int).push(
                cs@[i as int],
            ));
        }
        i = i + 1;
    }
    assert(path@.subrange(0, n as int) =~= path@);
    push_part(&mut stack, path, &cs, start, n);
    let ghost parts = string_views(stack@);
    assert(parts == components(path@));
    let mut out = if n > 0 && cs[0] == '/' {
        proof {
            reveal_strlit("/");
        }
        "/".to_owned()
    } else {
        String::new()
    };
    let ghost prefix = out@;
    assert(parts.subrange(0, 0) =~= Seq::<Seq<char>>::empty());
    assert(out@ =~= prefix + join_components(parts.subrange(0, 0)));
    let mut k: usize = 0;
    while k < stack.len()
        invariant
            parts == string_views(stack@),
            k <= stack@.len(),
            out@ == prefix + join_components(parts.subrange(0, k as int)),
        decreases stack@.len() - k,
    {
        proof {
            reveal_strlit("/");
        }
        let ghost before = out@;
        if k > 0 {
            out.append("/");
        }
        out.append(stack[k].as_str());
        proof {
            let sub = parts.subrange(0, k + 1);
            assert(sub.drop_last() =~= parts.subrange(0, k as int));
            assert(sub.last() == stack@[k as int]@);
            if k == 0 {
                assert(out@ =~= prefix + sub[0]);
            } else {
                assert(out@ =~= prefix + (join_components(sub.drop_last()) + seq!['/'] + sub.last()));
            }
        }
        k = k + 1;
    }
    assert(parts.subrange(0, stack@.len() as int) =~= parts);
    if n > 0 && cs[0] == '/' {
        proof {
            reveal_strlit("/");
        }
        assert(out@ =~= seq!['/'] + join_components(parts));
    } else {
        assert(out@ =~= join_components(parts));
    }
    out
}

fn starts_with(text: &Vec<char>, prefix: &Vec<char>) -> (r: bool)
    requires
        prefix@.len() <= text@.len(),
    ensures
        r == (text@.subrange(0, prefix@.len() as int) == prefix@),
{
    let mut i: usize = 0;
    while i < prefix.len()
        invariant
            prefix@.len() <= text@.len(),
            i <= prefix@.len(),
            forall|j: int| 0 <= j < i ==> text@[j] == prefix@[j],
        decreases prefix@.len() - i,
    {
        if text[i] != prefix[i] {
            assert(text@.subrange(0, prefix@.len() as int)[i as int] != prefix@[i as int]);
            return false;
        }
        i = i + 1;
    }
    assert(text@.subrange(0, prefix@.len() as int) =~= prefix@);
    true
}

/// `path` relative to the directory `root`, as `strip_root` gives it.
pub fn strip_root_prefix(root: &str, path: &str) -> (r: Option<String>)
    ensures
        match strip_root(root@, path@) {
            Some(rel) => r matches Some(s) && s@ == rel,
            None => r is None,
        },
{
    let rc = chars_of(root);
    let pc = chars_of(path);
    let rn = rc.len();
    let pn = pc.len();
    if rn == pn && starts_with(&pc, &rc) {
        assert(pc@ =~= pc@.subrange(0, rn as int));
        return Some(String::new());
    }
    proof {
        if path@ == root@ {
            assert(path@.subrange(0, rn as int) =~= path@);
        }
    }
    if rn > 0 && rc[rn - 1] == '/' && rn <= pn && starts_with(&pc, &rc) {
        return Some(path.substring_char(rn, pn).to_owned());
    }
    if rn < pn && starts_with(&pc, &rc) && pc[rn] == '/' {
        return Some(path.substring_char(rn + 1, pn).to_owned());
    }
    None
}

/// The repository-relative form of `path`, which is given relative to the
/// working directory `cur_dir` (or absolute), in the repository at
/// `root_path`, with `.` and `..` resolved. Fails with `InvalidPath` when it
/// lies outside the repository.
pub fn get_file_path_relative_to_root(root_path: &str, cur_dir: &str, path: &str) -> (r: Result<
    String,
    KvcError,
>)
    ensures
        match relative_to_root(root_path@, cur_dir@, path@) {
            Some(rel) => r matches Ok(s) && s@ == rel,
            None => r == Err::<String, KvcError>(KvcError::InvalidPath),
        },
{
    let pc = chars_of(path);
    let target = if pc.len() > 0 && pc[0] == '/' {
        path.to_owned()
    } else {
        proof {
            reveal_strlit("/");
        }
        let mut t = cur_dir.to_owned();
        t.append("/");
        t.append(path);
        t
    };
    assert(target@ == absolute_target(cur_dir@, path@));
    let root = normalize_path(root_path);
    let full = normalize_path(target.as_str());
    match strip_root_prefix(root.as_str(), full.as_str()) {
        Some(rel) => Ok(rel),
        None => Err(KvcError::InvalidPath),
    }
}

/// Repository discovery: started three directory levels below a directory
/// that holds the metadata folder, with none nearer, the search returns that
/// directory; when no candidate holds it, the search returns nothing.
pub proof fn lemma_locate_from_nested(
    root: Seq<char>,
    a: Seq<char>,
    b: Seq<char>,
    c: Seq<char>,
    probes: Seq<Probe>,
)
    requires
        root.len() > 0,
        a.len() > 0 && b.len() > 0 && c.len() > 0,
        forall|i: int| 0 <= i < a.len() ==> a[i] != '/',
        forall|i: int| 0 <= i < b.len() ==> b[i] != '/',
        forall|i: int| 0 <= i < c.len() ==> c[i] != '/',
        probes.len() == ancestor_chain(join_path(join_path(join_path(root, a), b), c)).len(),
        probes[0] == Probe::Absent && probes[1] == Probe::Absent && probes[2] == Probe::Absent,
        probes[3] == Probe::Found,
    ensures
        locate(ancestor_chain(join_path(join_path(join_path(root, a), b), c)), probes)
            == Some(root),
{
    let d1 = join_path(root, a);
    let d2 = join_path(d1, b);
    let d3 = join_path(d2, c);
    lemma_parent_of_join(root, a);
    lemma_parent_of_join(d1, b);
    lemma_parent_of_join(d2, c);
    let ch = ancestor_chain(d3);
    assert(ch == seq![d3] + ancestor_chain(d2));
    assert(ancestor_chain(d2) == seq![d2] + ancestor_chain(d1));
    assert(ancestor_chain(d1) == seq![d1] + ancestor_chain(root));
    assert(ancestor_chain(root)[0] == root);
    let p1 = probes.drop_first();
    let p2 = p1.drop_first();
    let p3 = p2.drop_first();
    assert(ch.drop_first() =~= ancestor_chain(d2));
    assert(ancestor_chain(d2).drop_first() =~= ancestor_chain(d1));
    assert(ancestor_chain(d1).drop_first() =~= ancestor_chain(root));
    assert(ch.len() >= 4);
    assert(p3[0] == Probe::Found);
    assert(locate(ancestor_chain(root), p3) == Some(root));
    assert(locate(ancestor_chain(d1), p2) == locate(ancestor_chain(root), p3));
    assert(locate(ancestor_chain(d2), p1) == locate(ancestor_chain(d1), p2));
    assert(locate(ch, probes) == locate(ancestor_chain(d2), p1));
}

/// With no candidate holding the metadata folder, the search finds nothing.
pub proof fn lemma_locate_without_repository(chain: Seq<Seq<char>>, probes: Seq<Probe>)
    requires
        forall|i: int| 0 <= i < probes.len() ==> probes[i] != Probe::Found,
    ensures
        locate(chain, probes) is None,
    decreases chain.len(),
{
    if chain.len() > 0 && probes.len() > 0 && probes[0] == Probe::Absent {
        let p = probes.drop_first();
        assert forall|i: int| 0 <= i < p.len() implies p[i] != Probe::Found by {
            assert(p[i] == probes[i + 1]);
        }
        lemma_locate_without_repository(chain.drop_first(), p);
    }
}

} // verus!
