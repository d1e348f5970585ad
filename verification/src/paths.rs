//! File paths as text, and where the runtime keeps its files.
use vstd::prelude::*;

use crate::tags::{law_safe_tag_is_one_path_component, safe_tag};
use crate::text::{char_pos, chars_of, find_char, lemma_char_pos, str_eq, string_of, views};

verus! {

/// `base` joined with `part`: an absolute `part` replaces `base`, otherwise
/// one separator stands between the two.
pub open spec fn joined_path(base: Seq<char>, part: Seq<char>) -> Seq<char> {
    if part.len() > 0 && part[0] == '/' {
        part
    } else if base.len() > 0 && base.last() != '/' {
        base + "/"@ + part
    } else {
        base + part
    }
}

pub fn join_path(base: &str, part: &str) -> (r: String)
    ensures
        r@ == joined_path(base@, part@),
{
    let b = chars_of(base);
    let p = chars_of(part);
    if p.len() > 0 && p[0] == '/' {
        part.to_string()
    } else if b.len() > 0 && b[b.len() - 1] != '/' {
        base.to_string().concat("/").concat(part)
    } else {
        base.to_string().concat(part)
    }
}

/// `p` without the separators and `.` components at its end.
pub open spec fn trim_path(p: Seq<char>) -> Seq<char>
    decreases p.len(),
{
    if p.len() > 1 && p.last() == '/' {
        trim_path(p.drop_last())
    } else if p.len() > 1 && p.last() == '.' && p[p.len() - 2] == '/' {
        trim_path(p.drop_last())
    } else {
        p
    }
}

/// The index behind the last separator of `p`, or 0.
pub open spec fn base_start(p: Seq<char>) -> nat
    decreases p.len(),
{
    if p.len() == 0 || p.last() == '/' {
        p.len()
    } else {
        base_start(p.drop_last())
    }
}

/// The last component of a path, where that is a name.
pub open spec fn path_name(p: Seq<char>) -> Option<Seq<char>> {
    let t = trim_path(p);
    let name = t.skip(base_start(t) as int);
    if name.len() == 0 || name == seq!['.'] || name == seq!['.', '.'] {
        None
    } else {
        Some(name)
    }
}

/// The index of the last `.` of a name, or its length.
pub open spec fn last_dot(s: Seq<char>) -> nat
    decreases s.len(),
{
    if s.len() == 0 {
        0
    } else if s.last() == '.' {
        (s.len() - 1) as nat
    } else {
        let k = last_dot(s.drop_last());
        if k == s.len() - 1 {
            s.len()
        } else {
            k
        }
    }
}

/// What follows the last `.` of a path's name, unless that is the name's
/// first character.
pub open spec fn path_extension(p: Seq<char>) -> Option<Seq<char>> {
    match path_name(p) {
        Some(name) => if 0 < last_dot(name) < name.len() {
            Some(name.skip(last_dot(name) as int + 1))
        } else {
            None
        },
        None => None,
    }
}

proof fn lemma_last_dot(s: Seq<char>)
    ensures
        last_dot(s) <= s.len(),
    decreases s.len(),
{
    if s.len() > 0 {
        lemma_last_dot(s.drop_last());
    }
}

/// The last component of a path, where that is a name.
pub fn file_name(p: &str) -> (r: Option<String>)
    ensures
        crate::api::opt_view(r) == path_name(p@),
{
    let v = chars_of(p);
    let mut hi: usize = v.len();
    assert(v@.take(hi as int) =~= p@);
    while hi > 1 && (v[hi - 1] == '/' || (v[hi - 1] == '.' && v[hi - 2] == '/'))
        invariant
            hi <= v.len(),
            trim_path(p@) == trim_path(v@.take(hi as int)),
        decreases hi,
    {
        assert(v@.take(hi as int).drop_last() =~= v@.take(hi - 1));
        hi -= 1;
    }
    let ghost t = v@.take(hi as int);
    assert(trim_path(p@) == t);
    let mut lo: usize = hi;
    assert(t.take(lo as int) =~= t);
    while lo > 0 && v[lo - 1] != '/'
        invariant
            lo <= hi <= v.len(),
            t == v@.take(hi as int),
            base_start(t) == base_start(t.take(lo as int)),
        decreases lo,
    {
        assert(t.take(lo as int).drop_last() =~= t.take(lo - 1));
        lo -= 1;
    }
    assert(base_start(t) == lo);
    let name = string_of(&v, lo, hi);
    assert(name@ =~= t.skip(lo as int));
    let dots = hi - lo <= 2 && (lo == hi || (v[lo] == '.' && v[hi - 1] == '.'));
    proof {
        if dots {
            assert(name@.len() == 0 || name@ =~= seq!['.'] || name@ =~= seq!['.', '.']);
        } else if name@ == seq!['.'] {
            assert(name@[0] == v@[lo as int]);
        } else if name@ == seq!['.', '.'] {
            assert(name@[0] == v@[lo as int]);
            assert(name@[1] == v@[hi - 1]);
        }
    }
    if dots {
        None
    } else {
        Some(name)
    }
}

/// The extension of a path's name.
pub fn extension(p: &str) -> (r: Option<String>)
    ensures
        crate::api::opt_view(r) == path_extension(p@),
{
    match file_name(p) {
        Some(name) => {
            let v = chars_of(name.as_str());
            let mut i: usize = v.len();
            assert(v@.take(i as int) =~= v@);
            while i > 0 && v[i - 1] != '.'
                invariant
                    i <= v.len(),
                    v@ == name@,
                    last_dot(v@) == (if last_dot(v@.take(i as int)) == i {
                        v@.len()
                    } else {
                        last_dot(v@.take(i as int))
                    }),
                decreases i,
            {
                proof {
                    lemma_last_dot(v@.take(i - 1));
                    assert(v@.take(i as int).drop_last() =~= v@.take(i - 1));
                }
                i -= 1;
            }
            if i <= 1 {
                None
            } else {
                Some(string_of(&v, i, v.len()))
            }
        },
        None => None,
    }
}

/// `$XDG_DATA_HOME/forkd`, or `.local/share/forkd` under the home directory,
/// or under `/tmp` where there is none.
pub open spec fn data_dir_of(xdg: Option<Seq<char>>, home: Option<Seq<char>>) -> Seq<char> {
    match (xdg, home) {
        (Some(d), _) => joined_path(d, "forkd"@),
        (None, Some(h)) => joined_path(h, ".local/share/forkd"@),
        (None, None) => joined_path("/tmp"@, ".local/share/forkd"@),
    }
}

/// The data directory, given the environment's `XDG_DATA_HOME` and `HOME`.
pub fn data_dir(xdg: &Option<String>, home: &Option<String>) -> (r: String)
    ensures
        r@ == data_dir_of(crate::api::opt_view(*xdg), crate::api::opt_view(*home)),
{
    match xdg {
        Some(d) => join_path(d.as_str(), "forkd"),
        None => match home {
            Some(h) => join_path(h.as_str(), ".local/share/forkd"),
            None => join_path("/tmp", ".local/share/forkd"),
        },
    }
}

pub open spec fn snapshot_dir_of(data_dir: Seq<char>, tag: Seq<char>) -> Seq<char> {
    joined_path(joined_path(data_dir, "snapshots"@), tag)
}

/// Where the snapshot `tag` lives under the data directory.
pub fn snapshot_dir(data_dir: &str, tag: &str) -> (r: String)
    ensures
        r@ == snapshot_dir_of(data_dir@, tag@),
{
    let root = join_path(data_dir, "snapshots");
    join_path(root.as_str(), tag)
}

/// Joining a name to a directory names an entry of that directory: the result
/// is the directory, one separator and the name, and its last component is
/// the name.
pub proof fn law_name_stays_in_directory(root: Seq<char>, name: Seq<char>)
    requires
        name.len() > 0,
        !name.contains('/'),
        name != seq!['.'],
        name != seq!['.', '.'],
        root.len() > 0,
        root.last() != '/',
    ensures
        joined_path(root, name) == root + "/"@ + name,
        path_name(joined_path(root, name)) == Some(name),
{
    reveal_strlit("/");
    assert(name.contains(name[0]));
    assert(name.contains(name.last()));
    let p = root + "/"@ + name;
    assert(p.last() == name.last());
    if name.last() == '.' && p[p.len() - 2] == '/' {
        if name.len() > 1 {
            assert(p[p.len() - 2] == name[name.len() - 2]);
            assert(name.contains(name[name.len() - 2]));
        } else {
            assert(name =~= seq!['.']);
        }
    }
    assert(trim_path(p) == p);
    lemma_base_start_of_suffix(root + "/"@, name);
    assert(p.skip(base_start(p) as int) =~= name);
}

/// The directory of a safe tag is an entry of the snapshot root.
pub proof fn law_safe_tag_stays_under_root(root: Seq<char>, tag: Seq<char>)
    requires
        safe_tag(tag),
        root.len() > 0,
        root.last() != '/',
    ensures
        joined_path(root, tag) == root + "/"@ + tag,
        path_name(joined_path(root, tag)) == Some(tag),
{
    law_safe_tag_is_one_path_component(tag);
    assert(tag.contains(tag[0]));
    if tag == seq!['.'] || tag == seq!['.', '.'] {
        assert(tag[0] == '.');
    }
    law_name_stays_in_directory(root, tag);
}

/// The directory of a tag that the command line accepts is an entry of the
/// directory of snapshots.
pub proof fn law_valid_tag_stays_under_root(data_dir: Seq<char>, tag: Seq<char>)
    requires
        crate::tags::valid_tag(tag),
        data_dir.len() > 0,
        data_dir.last() != '/',
    ensures
        snapshot_dir_of(data_dir, tag) == data_dir + "/"@ + "snapshots"@ + "/"@ + tag,
        path_name(snapshot_dir_of(data_dir, tag)) == Some(tag),
{
    reveal_strlit("snapshots");
    let root = joined_path(data_dir, "snapshots"@);
    assert(root == data_dir + "/"@ + "snapshots"@);
    assert(root.last() == "snapshots"@.last());
    crate::tags::law_valid_tag_is_one_path_component(tag);
    law_name_stays_in_directory(root, tag);
}

proof fn lemma_base_start_of_suffix(a: Seq<char>, b: Seq<char>)
    requires
        a.len() > 0,
        a.last() == '/',
        !b.contains('/'),
    ensures
        base_start(a + b) == a.len(),
    decreases b.len(),
{
    if b.len() == 0 {
        assert(a + b =~= a);
    } else {
        assert(b.contains(b.last()));
        assert((a + b).drop_last() =~= a + b.drop_last());
        assert forall|i: int| 0 <= i < b.drop_last().len() implies b.drop_last()[i] != '/' by {
            assert(b.contains(b[i]));
        }
        lemma_base_start_of_suffix(a, b.drop_last());
    }
}

// ---------------------------------------------------------------------
// Components
// ---------------------------------------------------------------------

/// What stands between the separators of `p`.
pub open spec fn segments(p: Seq<char>) -> Seq<Seq<char>>
    decreases p.len(),
{
    let k = char_pos(p, '/') as int;
    if k >= p.len() {
        seq![p]
    } else {
        seq![p.take(k)] + segments(p.skip(k + 1))
    }
}

/// The components among segments: empty ones and `.` do not count, except for
/// a `.` that a relative path starts with.
pub open spec fn significant(segs: Seq<Seq<char>>, first: bool) -> Seq<Seq<char>>
    decreases segs.len(),
{
    if segs.len() == 0 {
        Seq::empty()
    } else {
        let rest = significant(segs.skip(1), false);
        if segs[0].len() == 0 || (segs[0] == "."@ && !first) {
            rest
        } else {
            seq![segs[0]] + rest
        }
    }
}

/// The components of a path; an absolute one starts with the root.
pub open spec fn components(p: Seq<char>) -> Seq<Seq<char>> {
    if p.len() > 0 && p[0] == '/' {
        seq!["/"@] + significant(segments(p), false)
    } else {
        significant(segments(p), true)
    }
}

fn split_path(p: &str) -> (r: Vec<String>)
    ensures
        views(r@) == components(p@),
{
    let v = chars_of(p);
    let mut out: Vec<String> = Vec::new();
    let absolute = v.len() > 0 && v[0] == '/';
    if absolute {
        out.push("/".to_string());
    }
    let mut first = !absolute;
    let mut i: usize = 0;
    let mut done = false;
    proof {
        assert(p@.skip(0) =~= p@);
        if absolute {
            assert(views(out@) =~= seq!["/"@]);
        } else {
            assert(views(out@) =~= Seq::<Seq<char>>::empty());
        }
        assert(components(p@) =~= views(out@) + significant(segments(p@), first));
    }
    while !done
        invariant
            i <= v.len(),
            v@ == p@,
            !done ==> components(p@) == views(out@) + significant(
                segments(p@.skip(i as int)),
                first,
            ),
            done ==> components(p@) == views(out@),
        decreases v.len() - i + (if done {
            0int
        } else {
            1
        }),
    {
        let ghost rest = p@.skip(i as int);
        let k = find_char(&v, '/', i);
        let seg = string_of(&v, i, k);
        let keep = k > i && (first || !str_eq(seg.as_str(), "."));
        let ghost before = views(out@);
        proof {
            lemma_char_pos(rest, '/');
            assert(seg@ =~= rest.take(k - i));
        }
        if keep {
            out.push(seg);
            assert(views(out@) =~= before.push(seg@));
        }
        if k >= v.len() {
            done = true;
            proof {
                assert(seg@ =~= rest);
                assert(segments(rest) =~= seq![rest]);
                let s = segments(rest);
                assert(s.skip(1) =~= Seq::<Seq<char>>::empty());
                assert(significant(s.skip(1), false) =~= Seq::<Seq<char>>::empty());
                if keep {
                    assert(significant(s, first) =~= seq![seg@]);
                } else {
                    assert(significant(s, first) =~= Seq::<Seq<char>>::empty());
                }
                assert(views(out@) =~= before + significant(s, first));
            }
        } else {
            proof {
                let s = segments(rest);
                let t = segments(p@.skip(k + 1));
                assert(rest.skip(k - i + 1) =~= p@.skip(k + 1));
                assert(s == seq![seg@] + t);
                assert(s[0] == seg@);
                assert(s.skip(1) =~= t);
                if keep {
                    assert(significant(s, first) == seq![seg@] + significant(t, false));
                } else {
                    assert(significant(s, first) == significant(t, false));
                }
                assert(views(out@) + significant(t, false) =~= before + significant(s, first));
            }
            i = k + 1;
        }
        first = false;
    }
    out
}

/// Whether `path` is `dir` or lies below it, component by component.
pub open spec fn lies_in(path: Seq<char>, dir: Seq<char>) -> bool {
    components(dir).is_prefix_of(components(path))
}

pub fn is_inside(path: &str, dir: &str) -> (r: bool)
    ensures
        r == lies_in(path@, dir@),
{
    let a = split_path(path);
    let b = split_path(dir);
    let ghost pa = components(path@);
    let ghost pb = components(dir@);
    if b.len() > a.len() {
        assert(pb.len() == b@.len() && pa.len() == a@.len());
        return false;
    }
    let mut i: usize = 0;
    while i < b.len()
        invariant
            i <= b.len(),
            b.len() <= a.len(),
            pa == components(path@),
            pb == components(dir@),
            pa == views(a@),
            pb == views(b@),
            forall|j: int| 0 <= j < i ==> pa[j] == pb[j],
        decreases b.len() - i,
    {
        assert(pa[i as int] == a@[i as int]@ && pb[i as int] == b@[i as int]@);
        if !str_eq(a[i].as_str(), b[i].as_str()) {
            assert(!pb.is_prefix_of(pa)) by {
                if pb.is_prefix_of(pa) {
                    assert(pb[i as int] == pa.subrange(0, pb.len() as int)[i as int]);
                }
            }
            return false;
        }
        i += 1;
    }
    assert(pb =~= pa.subrange(0, pb.len() as int));
    true
}

} // verus!
