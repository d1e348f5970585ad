//! Packing snapshots for other hosts and fetching them: names, targets and
//! refusals.
use vstd::prelude::*;

use crate::api::{copy_opt, opt_view};
use crate::firecracker::{lower, lowered};
use crate::paths::{snapshot_dir, snapshot_dir_of};
use crate::table::Table;
use crate::tags::{tag_fault, valid_tag, validate_tag, TagError};
use crate::text::{
    alphanumeric, chars_of, dec, debug_str, has_char, is_alphanumeric, join, joined, pad_left,
    pad_right, padded_left, padded_right, char_pos, split_once, starts_with, str_debug, str_eq,
    string_of, views,
};

verus! {

// ---------------------------------------------------------------------
// Names
// ---------------------------------------------------------------------

/// `s` with a dash for every character that is no letter or digit.
pub open spec fn dashed(s: Seq<char>) -> Seq<char> {
    s.map_values(|c: char| if alphanumeric(c) {
        c
    } else {
        '-'
    })
}

pub open spec fn skip_dashes(s: Seq<char>) -> Seq<char>
    decreases s.len(),
{
    if s.len() > 0 && s[0] == '-' {
        skip_dashes(s.skip(1))
    } else {
        s
    }
}

pub open spec fn drop_dashes(s: Seq<char>) -> Seq<char>
    decreases s.len(),
{
    if s.len() > 0 && s.last() == '-' {
        drop_dashes(s.drop_last())
    } else {
        s
    }
}

/// A name that can stand for `s` in a file name: letters and digits, with
/// dashes in between.
pub open spec fn slug_of(s: Seq<char>) -> Seq<char> {
    drop_dashes(skip_dashes(dashed(s)))
}

pub fn slug(s: &str) -> (r: String)
    ensures
        r@ == slug_of(s@),
{
    let v = chars_of(s);
    let mut d: Vec<char> = Vec::new();
    let mut i: usize = 0;
    while i < v.len()
        invariant
            i <= v.len(),
            v@ == s@,
            d@ == dashed(s@.take(i as int)),
        decreases v.len() - i,
    {
        let c = v[i];
        let e = if is_alphanumeric(c) {
            c
        } else {
            '-'
        };
        d.push(e);
        i += 1;
        assert(d@ =~= dashed(s@.take(i as int)));
    }
    assert(s@.take(i as int) =~= s@);
    let ghost all = dashed(s@);
    let mut lo: usize = 0;
    assert(all.skip(0) =~= all);
    while lo < d.len() && d[lo] == '-'
        invariant
            lo <= d.len(),
            d@ == all,
            skip_dashes(all) == skip_dashes(all.skip(lo as int)),
        decreases d.len() - lo,
    {
        assert(all.skip(lo as int).skip(1) =~= all.skip(lo + 1));
        lo += 1;
    }
    let ghost mid = all.skip(lo as int);
    let mut hi: usize = d.len();
    assert(all.subrange(lo as int, hi as int) =~= mid);
    while hi > lo && d[hi - 1] == '-'
        invariant
            lo <= hi <= d.len(),
            d@ == all,
            mid == all.skip(lo as int),
            drop_dashes(mid) == drop_dashes(all.subrange(lo as int, hi as int)),
        decreases hi,
    {
        assert(all.subrange(lo as int, hi as int).drop_last() =~= all.subrange(
            lo as int,
            hi - 1,
        ));
        hi -= 1;
    }
    string_of(&d, lo, hi)
}

/// The letters and digits of `s`.
pub open spec fn letters_of(s: Seq<char>) -> Seq<char> {
    s.filter(|c: char| alphanumeric(c))
}

fn letters(s: &str) -> (r: String)
    ensures
        r@ == letters_of(s@),
{
    let v = chars_of(s);
    let mut out = String::new();
    let mut i: usize = 0;
    assert(out@ =~= letters_of(s@.take(0))) by {
        reveal(Seq::filter);
    }
    while i < v.len()
        invariant
            i <= v.len(),
            v@ == s@,
            out@ == letters_of(s@.take(i as int)),
        decreases v.len() - i,
    {
        let c = v[i];
        proof {
            reveal(Seq::filter);
            let next = s@.take(i + 1);
            assert(next.drop_last() =~= s@.take(i as int));
            assert(next.last() == c);
        }
        if is_alphanumeric(c) {
            out.push(c);
        }
        i += 1;
    }
    assert(s@.take(i as int) =~= s@);
    out
}

/// The file that a tag is packed into where none is named.
pub fn pack_file(tag: &str) -> (r: String)
    ensures
        r@ == slug_of(tag@) + ".forkd-snapshot.tar.zst"@,
{
    let s = slug(tag);
    s.concat(".forkd-snapshot.tar.zst")
}

/// The file that an image's root filesystem is built into where none is named.
pub fn rootfs_file(image: &str) -> (r: String)
    ensures
        r@ == slug_of(image@) + ".ext4"@,
{
    let s = slug(image);
    s.concat(".ext4")
}

/// The temporary file that a tag is packed into before it is pushed.
pub fn push_file(pid: u32, tag: &str) -> (r: String)
    ensures
        r@ == "forkd-push-"@ + dec(pid as nat) + "-"@ + letters_of(tag@) + ".tar.zst"@,
{
    let n = crate::text::dec_string(pid as u64);
    let l = letters(tag);
    "forkd-push-".to_string().concat(n.as_str()).concat("-").concat(l.as_str()).concat(".tar.zst")
}

/// A slug holds letters, digits and dashes, and starts and ends with a letter
/// or digit, where it is not empty.
pub proof fn law_slug_has_no_outer_dash(s: Seq<char>)
    ensures
        only_slug_chars(slug_of(s)),
        slug_of(s).len() > 0 ==> alphanumeric(slug_of(s)[0]) && slug_of(s)[0] != '-',
        slug_of(s).len() > 0 ==> alphanumeric(slug_of(s).last()) && slug_of(s).last() != '-',
{
    assert(only_slug_chars(dashed(s)));
    lemma_skip_dashes(dashed(s));
    lemma_drop_dashes(skip_dashes(dashed(s)));
}

pub open spec fn only_slug_chars(s: Seq<char>) -> bool {
    forall|i: int| 0 <= i < s.len() ==> #[trigger] s[i] == '-' || alphanumeric(s[i])
}

proof fn lemma_skip_dashes(s: Seq<char>)
    requires
        only_slug_chars(s),
    ensures
        only_slug_chars(skip_dashes(s)),
        skip_dashes(s).len() > 0 ==> skip_dashes(s)[0] != '-',
    decreases s.len(),
{
    if s.len() > 0 && s[0] == '-' {
        lemma_skip_dashes(s.skip(1));
    }
}

proof fn lemma_drop_dashes(s: Seq<char>)
    requires
        only_slug_chars(s),
    ensures
        only_slug_chars(drop_dashes(s)),
        drop_dashes(s).len() > 0 ==> drop_dashes(s).last() != '-' && drop_dashes(s)[0] == s[0],
    decreases s.len(),
{
    if s.len() > 0 && s.last() == '-' {
        lemma_drop_dashes(s.drop_last());
    }
}

// ---------------------------------------------------------------------
// Packing and unpacking
// ---------------------------------------------------------------------

/// Why a command on a local snapshot is refused.
#[derive(Debug, PartialEq, Eq)]
pub enum LocalError {
    Tag(TagError),
    Missing { tag: String, dir: String },
}

impl LocalError {
    pub fn message(&self) -> (r: String)
        ensures
            r@ == (match *self {
                LocalError::Tag(e) => e.text(),
                LocalError::Missing { tag, dir } => "snapshot tag '"@ + tag@ + "' not found at "@
                    + dir@ + "\nrun 'forkd snapshot --tag "@ + tag@ + " ...' first"@,
            }),
    {
        match self {
            LocalError::Tag(e) => e.message(),
            LocalError::Missing { tag, dir } => "snapshot tag '".to_string().concat(
                tag.as_str(),
            ).concat("' not found at ").concat(dir.as_str()).concat(
                "\nrun 'forkd snapshot --tag ",
            ).concat(tag.as_str()).concat(" ...' first"),
        }
    }
}

/// The directory of a local snapshot that is to be packed. `present` says
/// whether it is there.
pub fn local_snapshot(data_dir: &str, tag: &str, present: bool) -> (r: Result<String, LocalError>)
    ensures
        match r {
            Ok(dir) => valid_tag(tag@) && present && dir@ == snapshot_dir_of(data_dir@, tag@),
            Err(LocalError::Tag(e)) => !valid_tag(tag@) && tag_fault(tag@, e),
            Err(LocalError::Missing { tag: t, dir }) => {
                &&& valid_tag(tag@)
                &&& !present
                &&& t@ == tag@
                &&& dir@ == snapshot_dir_of(data_dir@, tag@)
            },
        },
{
    match validate_tag(tag) {
        Ok(_) => {},
        Err(e) => {
            return Err(LocalError::Tag(e));
        },
    }
    let dir = snapshot_dir(data_dir, tag);
    if !present {
        return Err(LocalError::Missing { tag: tag.to_string(), dir });
    }
    Ok(dir)
}

/// Whether a pack can be unpacked: it is there, and the tag asked for, if any,
/// may be used.
pub fn begin_unpack(path: &str, present: bool, asked: &Option<String>) -> (r: Result<(), String>)
    ensures
        if !present {
            r matches Err(m) && m@ == "pack file not found: "@ + path@
        } else {
            match *asked {
                None => r is Ok,
                Some(t) => match r {
                    Ok(_) => valid_tag(t@),
                    Err(m) => !valid_tag(t@) && exists|e: TagError| #[trigger]
                        tag_fault(t@, e) && m@ == e.text(),
                },
            }
        },
{
    if !present {
        return Err("pack file not found: ".to_string().concat(path));
    }
    match asked {
        None => Ok(()),
        Some(t) => match validate_tag(t.as_str()) {
            Ok(_) => Ok(()),
            Err(e) => {
                assert(tag_fault(t@, e));
                Err(e.message())
            },
        },
    }
}

/// The tag that a pack is unpacked under: the one asked for, which has been
/// looked at already, or the one that the pack's manifest declares, if that
/// may be used.
pub fn unpack_tag(asked: &Option<String>, declared: &str) -> (r: Result<String, String>)
    ensures
        match *asked {
            Some(t) => r matches Ok(x) && x@ == t@,
            None => match r {
                Ok(x) => valid_tag(declared@) && x@ == declared@,
                Err(m) => !valid_tag(declared@) && exists|e: TagError| #[trigger]
                    tag_fault(declared@, e) && m@ == "pack manifest declares an invalid tag "@
                        + str_debug(declared@) + ": "@ + e.text()
                        + ". Pass --tag <safe-name> to override."@,
            },
        },
{
    match asked {
        Some(t) => Ok(t.clone()),
        None => match validate_tag(declared) {
            Ok(_) => Ok(declared.to_string()),
            Err(e) => {
                let d = debug_str(declared);
                let why = e.message();
                let m = "pack manifest declares an invalid tag ".to_string().concat(
                    d.as_str(),
                ).concat(": ").concat(why.as_str()).concat(
                    ". Pass --tag <safe-name> to override.",
                );
                assert(tag_fault(declared@, e));
                Err(m)
            },
        },
    }
}

/// Whether an existing snapshot has to make way for one that is unpacked.
pub fn unpack_over(tag: &str, dest: &str, present: bool, force: bool) -> (r: Result<bool, String>)
    ensures
        if present && !force {
            r matches Err(m) && m@ == "tag '"@ + tag@ + "' already exists at "@ + dest@
                + "; pass --force to overwrite"@
        } else {
            r == Ok::<bool, String>(present)
        },
{
    if present && !force {
        return Err(
            "tag '".to_string().concat(tag).concat("' already exists at ").concat(dest).concat(
                "; pass --force to overwrite",
            ),
        );
    }
    Ok(present)
}

// ---------------------------------------------------------------------
// Pulling
// ---------------------------------------------------------------------

/// Where packages are looked up where no other registry is named.
pub fn default_registry_url() -> (r: String)
    ensures
        r@ == "https://raw.githubusercontent.com/deeplethe/forkd/main/registry.json"@,
{
    "https://raw.githubusercontent.com/deeplethe/forkd/main/registry.json".to_string()
}

/// What a pull is asked for.
#[derive(Debug, PartialEq, Eq)]
pub enum Target {
    /// A pack at an address, taken as it is.
    Url(String),
    /// A version of a package in a registry.
    Package { name: String, version: String },
}

pub open spec fn is_url(target: Seq<char>) -> bool {
    "http://"@.is_prefix_of(target) || "https://"@.is_prefix_of(target)
}

/// Reads what a pull is asked for: an address, or `owner/name` with an
/// optional `@version`.
pub fn parse_target(target: &str) -> (r: Result<Target, String>)
    ensures
        if is_url(target@) {
            r matches Ok(Target::Url(u)) && u@ == target@
        } else if target@.contains('/') && !target@.contains(' ') {
            r matches Ok(Target::Package { name, version }) && if target@.contains('@') {
                &&& name@ == target@.take(char_pos(target@, '@') as int)
                &&& version@ == target@.skip(char_pos(target@, '@') as int + 1)
            } else {
                name@ == target@ && version@ == "latest"@
            }
        } else {
            r matches Err(m) && m@ == "invalid pull target '"@ + target@
                + "'; expected an https URL or `<owner>/<name>[@<version>]` short form"@
        },
{
    if starts_with(target, "http://") || starts_with(target, "https://") {
        return Ok(Target::Url(target.to_string()));
    }
    if has_char(target, '/') && !has_char(target, ' ') {
        return match split_once(target, '@') {
            Some((name, version)) => Ok(Target::Package { name, version }),
            None => Ok(
                Target::Package { name: target.to_string(), version: "latest".to_string() },
            ),
        };
    }
    Err(
        "invalid pull target '".to_string().concat(target).concat(
            "'; expected an https URL or `<owner>/<name>[@<version>]` short form",
        ),
    )
}

/// A version of a package: where it is, and what it hashes to.
#[derive(Debug, PartialEq, Eq)]
pub struct PackageVersion {
    pub url: String,
    pub sha256: Option<String>,
}

/// The versions of one package, and their names as the registry lists them.
#[derive(Debug)]
pub struct Package {
    pub versions: Table<PackageVersion>,
    pub listed: Vec<String>,
}

pub open spec fn debug_list(names: Seq<Seq<char>>) -> Seq<char> {
    "["@ + joined(names.map_values(|n: Seq<char>| str_debug(n)), ", "@) + "]"@
}

fn show_list(names: &Vec<String>) -> (r: String)
    ensures
        r@ == debug_list(views(names@)),
{
    let ghost want = views(names@).map_values(|n: Seq<char>| str_debug(n));
    let mut parts: Vec<String> = Vec::new();
    let mut i: usize = 0;
    while i < names.len()
        invariant
            i <= names.len(),
            want == views(names@).map_values(|n: Seq<char>| str_debug(n)),
            views(parts@) == want.take(i as int),
        decreases names.len() - i,
    {
        let q = debug_str(names[i].as_str());
        proof {
            assert(views(parts@.push(q)) =~= views(parts@).push(q@));
            assert(want.take(i + 1) =~= want.take(i as int).push(q@));
        }
        parts.push(q);
        i += 1;
    }
    assert(want.take(i as int) =~= want);
    let body = join(&parts, ", ");
    "[".to_string().concat(body.as_str()).concat("]")
}

/// Looks a version of a package up.
pub fn find_version(
    packages: &Table<Package>,
    name: &str,
    version: &str,
    registry_url: &str,
) -> (r: Result<PackageVersion, String>)
    ensures
        if !packages@.contains_key(name@) {
            r matches Err(m) && m@ == "package '"@ + name@ + "' not in registry at "@
                + registry_url@ + ". Run `curl "@ + registry_url@ + "` to see what's available."@
        } else {
            let p = packages@[name@];
            if !p.versions@.contains_key(version@) {
                r matches Err(m) && m@ == "package '"@ + name@ + "' has no version '"@ + version@
                    + "'. Available: "@ + debug_list(views(p.listed@))
            } else {
                let v = p.versions@[version@];
                r matches Ok(x) && x.url@ == v.url@ && opt_view(x.sha256) == opt_view(v.sha256)
            }
        },
{
    match packages.get(name) {
        None => Err(
            "package '".to_string().concat(name).concat("' not in registry at ").concat(
                registry_url,
            ).concat(". Run `curl ").concat(registry_url).concat("` to see what's available."),
        ),
        Some(p) => match p.versions.get(version) {
            None => {
                let list = show_list(&p.listed);
                Err(
                    "package '".to_string().concat(name).concat("' has no version '").concat(
                        version,
                    ).concat("'. Available: ").concat(list.as_str()),
                )
            },
            Some(v) => Ok(PackageVersion { url: v.url.clone(), sha256: copy_opt(&v.sha256) }),
        },
    }
}

/// Whether what was downloaded is what the registry says, whatever the case of
/// the hash.
pub fn check_download(expected: &Option<String>, actual: &str) -> (r: Result<(), String>)
    ensures
        match *expected {
            None => r is Ok,
            Some(e) => if lower(e@) == lower(actual@) {
                r is Ok
            } else {
                r matches Err(m) && m@ == "sha256 mismatch — registry says "@ + e@
                    + ", downloaded file is "@ + actual@
                    + ".\nRefusing to unpack. This means either the registry is stale or the download was tampered with."@
            },
        },
{
    match expected {
        None => Ok(()),
        Some(e) => {
            let a = lowered(e.as_str());
            let b = lowered(actual);
            if str_eq(a.as_str(), b.as_str()) {
                Ok(())
            } else {
                Err(
                    "sha256 mismatch — registry says ".to_string().concat(e.as_str()).concat(
                        ", downloaded file is ",
                    ).concat(actual).concat(
                        ".\nRefusing to unpack. This means either the registry is stale or the download was tampered with.",
                    ),
                )
            }
        },
    }
}

// ---------------------------------------------------------------------
// Listing
// ---------------------------------------------------------------------

/// A local snapshot in a listing. `size` is how much it holds, in words.
#[derive(Debug, PartialEq, Eq)]
pub struct ImageRow {
    pub tag: String,
    pub size: String,
    pub has_rootfs: bool,
}

pub open spec fn image_line(r: ImageRow) -> Seq<char> {
    pad_right(r.tag@, 32, ' ') + "  "@ + pad_left(r.size@, 12, ' ') + "  "@ + (if r.has_rootfs {
        "yes"@
    } else {
        "—"@
    }) + "\n"@
}

pub open spec fn image_lines(rows: Seq<ImageRow>) -> Seq<char>
    decreases rows.len(),
{
    if rows.len() == 0 {
        Seq::empty()
    } else {
        image_lines(rows.drop_last()) + image_line(rows.last())
    }
}

/// The table of local snapshots, or where none were found.
pub fn images(root: &str, rows: &Vec<ImageRow>) -> (r: String)
    ensures
        r@ == (if rows@.len() == 0 {
            "no local snapshots at "@ + root@
                + "\n  try: forkd snapshot --tag <name> ... or forkd pull <url>\n"@
        } else {
            pad_right("TAG"@, 32, ' ') + "  "@ + pad_left("SIZE"@, 12, ' ') + "  ROOTFS?\n"@
                + image_lines(rows@)
        }),
{
    if rows.len() == 0 {
        return "no local snapshots at ".to_string().concat(root).concat(
            "\n  try: forkd snapshot --tag <name> ... or forkd pull <url>\n",
        );
    }
    let mut body = String::new();
    let mut i: usize = 0;
    assert(body@ =~= image_lines(rows@.take(0)));
    while i < rows.len()
        invariant
            i <= rows.len(),
            body@ == image_lines(rows@.take(i as int)),
        decreases rows.len() - i,
    {
        assert(rows@.take(i + 1).drop_last() =~= rows@.take(i as int));
        let t = padded_right(rows[i].tag.as_str(), 32, ' ');
        let s = padded_left(rows[i].size.as_str(), 12, ' ');
        let mark = if rows[i].has_rootfs {
            "yes"
        } else {
            "—"
        };
        let l = t.concat("  ").concat(s.as_str()).concat("  ").concat(mark).concat("\n");
        body = body.concat(l.as_str());
        i += 1;
    }
    assert(rows@.take(i as int) =~= rows@);
    let h = padded_right("TAG", 32, ' ');
    let z = padded_left("SIZE", 12, ' ');
    h.concat("  ").concat(z.as_str()).concat("  ROOTFS?\n").concat(body.as_str())
}

/// The line of a snapshot starts with its tag, and says that it has a root
/// filesystem exactly where it has one.
pub proof fn law_image_line_tells(r: ImageRow)
    ensures
        r.tag@.is_prefix_of(image_line(r)),
        "  yes\n"@.is_suffix_of(image_line(r)) <==> r.has_rootfs,
{
    reveal_strlit("  yes\n");
    reveal_strlit("  ");
    reveal_strlit("yes");
    reveal_strlit("—");
    reveal_strlit("\n");
    let l = image_line(r);
    let t = pad_right(r.tag@, 32, ' ');
    assert(r.tag@.is_prefix_of(t));
    assert(l.take(r.tag@.len() as int) =~= r.tag@) by {
        assert(t.take(r.tag@.len() as int) == r.tag@);
        assert forall|j: int| 0 <= j < r.tag@.len() implies l[j] == r.tag@[j] by {
            assert(t.take(r.tag@.len() as int)[j] == t[j]);
        }
    }
    let n = l.len() as int;
    if r.has_rootfs {
        assert(l.skip(n - 6) =~= "  yes\n"@);
    } else {
        assert(l[n - 2] == '—');
        assert("  yes\n"@[4] == 's');
        if "  yes\n"@.is_suffix_of(l) {
            assert(l.skip(n - 6)[4] == l[n - 2]);
        }
    }
}

} // verus!
