//! What may stand as the name of a snapshot or a workspace.
use vstd::prelude::*;
use vstd::utf8::encode_utf8;

use crate::text::{ascii_alnum, char_debug, chars_of, debug_char, dec, dec_string, is_ascii_alnum};

verus! {

pub open spec fn safe_tag_char(c: char) -> bool {
    is_ascii_alnum(c) || c == '-' || c == '_'
}

/// 1 to 64 characters, each an ASCII letter or digit, a dash or an underscore.
pub open spec fn safe_tag(tag: Seq<char>) -> bool {
    &&& 1 <= tag.len() <= 64
    &&& forall|i: int| 0 <= i < tag.len() ==> safe_tag_char(#[trigger] tag[i])
}

/// Whether the controller accepts `tag` as the name of a directory.
pub fn is_safe_tag(tag: &str) -> (r: bool)
    ensures
        r == safe_tag(tag@),
{
    let v = chars_of(tag);
    if v.len() == 0 || v.len() > 64 {
        return false;
    }
    let mut i: usize = 0;
    while i < v.len()
        invariant
            i <= v.len(),
            v@ == tag@,
            1 <= v@.len() <= 64,
            forall|j: int| 0 <= j < i ==> safe_tag_char(#[trigger] tag@[j]),
        decreases v.len() - i,
    {
        let c = v[i];
        if !(ascii_alnum(c) || c == '-' || c == '_') {
            assert(!safe_tag_char(tag@[i as int]));
            return false;
        }
        i += 1;
    }
    true
}

/// A safe tag holds no path separator and no dot, so that as a path it is one
/// component and not `.` or `..`.
pub proof fn law_safe_tag_is_one_path_component(tag: Seq<char>)
    requires
        safe_tag(tag),
    ensures
        tag.len() > 0,
        !tag.contains('/'),
        !tag.contains('.'),
        !tag.contains('\0'),
{
    assert forall|i: int| 0 <= i < tag.len() implies tag[i] != '/' && tag[i] != '.' && tag[i]
        != '\0' by {
        assert(safe_tag_char(tag[i]));
    }
}

// ---------------------------------------------------------------------
// Tags on the command line
// ---------------------------------------------------------------------

pub open spec fn valid_tag_char(c: char) -> bool {
    is_ascii_alnum(c) || c == '.' || c == '_' || c == '-'
}

/// 1 to 64 bytes of ASCII letters, digits, dots, underscores and dashes, of
/// which the first is no dot and no dash.
pub open spec fn valid_tag(tag: Seq<char>) -> bool {
    &&& tag.len() > 0
    &&& encode_utf8(tag).len() <= 64
    &&& is_ascii_alnum(tag[0]) || tag[0] == '_'
    &&& forall|i: int| 0 <= i < tag.len() ==> valid_tag_char(#[trigger] tag[i])
}

/// Why a tag is refused.
#[derive(Debug, PartialEq, Eq)]
pub enum TagError {
    Empty,
    TooLong { tag: String, bytes: usize },
    BadStart { tag: String, first: char },
    /// The first character that is not allowed.
    BadChar { tag: String, c: char },
}

/// Whether `e` is what is wrong with `tag`.
pub open spec fn tag_fault(tag: Seq<char>, e: TagError) -> bool {
    match e {
        TagError::Empty => tag.len() == 0,
        TagError::TooLong { tag: t, bytes } => {
            &&& tag.len() > 0
            &&& t@ == tag
            &&& bytes == encode_utf8(tag).len()
            &&& bytes > 64
        },
        TagError::BadStart { tag: t, first } => {
            &&& tag.len() > 0
            &&& t@ == tag
            &&& encode_utf8(tag).len() <= 64
            &&& first == tag[0]
            &&& !(is_ascii_alnum(first) || first == '_')
        },
        TagError::BadChar { tag: t, c } => {
            &&& tag.len() > 0
            &&& t@ == tag
            &&& encode_utf8(tag).len() <= 64
            &&& is_ascii_alnum(tag[0]) || tag[0] == '_'
            &&& !valid_tag_char(c)
            &&& exists|i: int|
                0 <= i < tag.len() && #[trigger] tag[i] == c && forall|j: int|
                    0 <= j < i ==> valid_tag_char(#[trigger] tag[j])
        },
    }
}

impl TagError {
    pub open spec fn text(self) -> Seq<char> {
        match self {
            TagError::Empty => "invalid tag: empty"@,
            TagError::TooLong { tag, bytes } => "invalid tag '"@ + tag@
                + "': longer than 64 chars (got "@ + dec(bytes as nat) + ")"@,
            TagError::BadStart { tag, first } => "invalid tag '"@ + tag@
                + "': must start with a letter, digit, or '_' (got "@ + char_debug(first)
                + "). Tags cannot start with '.' or '-' or path separators."@,
            TagError::BadChar { tag, c } => "invalid tag '"@ + tag@ + "': illegal character "@
                + char_debug(c) + ". Allowed: letters, digits, '.', '_', '-'."@,
        }
    }

    pub fn message(&self) -> (r: String)
        ensures
            r@ == self.text(),
    {
        match self {
            TagError::Empty => "invalid tag: empty".to_string(),
            TagError::TooLong { tag, bytes } => {
                let n = dec_string(*bytes as u64);
                "invalid tag '".to_string().concat(tag.as_str()).concat(
                    "': longer than 64 chars (got ",
                ).concat(n.as_str()).concat(")")
            },
            TagError::BadStart { tag, first } => {
                let d = debug_char(*first);
                "invalid tag '".to_string().concat(tag.as_str()).concat(
                    "': must start with a letter, digit, or '_' (got ",
                ).concat(d.as_str()).concat(
                    "). Tags cannot start with '.' or '-' or path separators.",
                )
            },
            TagError::BadChar { tag, c } => {
                let d = debug_char(*c);
                "invalid tag '".to_string().concat(tag.as_str()).concat(
                    "': illegal character ",
                ).concat(d.as_str()).concat(". Allowed: letters, digits, '.', '_', '-'.")
            },
        }
    }
}

/// Whether the command line accepts `tag` as the name of a local snapshot.
pub fn validate_tag(tag: &str) -> (r: Result<(), TagError>)
    ensures
        match r {
            Ok(_) => valid_tag(tag@),
            Err(e) => !valid_tag(tag@) && tag_fault(tag@, e),
        },
{
    let v = chars_of(tag);
    if v.len() == 0 {
        return Err(TagError::Empty);
    }
    let bytes: usize = tag.as_bytes().len();
    if bytes > 64 {
        return Err(TagError::TooLong { tag: tag.to_string(), bytes });
    }
    let first = v[0];
    if !(ascii_alnum(first) || first == '_') {
        return Err(TagError::BadStart { tag: tag.to_string(), first });
    }
    let mut i: usize = 0;
    while i < v.len()
        invariant
            i <= v.len(),
            v@ == tag@,
            v@.len() > 0,
            encode_utf8(tag@).len() <= 64,
            is_ascii_alnum(tag@[0]) || tag@[0] == '_',
            forall|j: int| 0 <= j < i ==> valid_tag_char(#[trigger] tag@[j]),
        decreases v.len() - i,
    {
        let c = v[i];
        if !(ascii_alnum(c) || c == '.' || c == '_' || c == '-') {
            assert(tag@[i as int] == c && !valid_tag_char(tag@[i as int]));
            return Err(TagError::BadChar { tag: tag.to_string(), c });
        }
        i += 1;
    }
    Ok(())
}

/// A tag that the command line accepts is one path component: it holds no
/// separator and is neither `.` nor `..`.
pub proof fn law_valid_tag_is_one_path_component(tag: Seq<char>)
    requires
        valid_tag(tag),
    ensures
        tag.len() > 0,
        !tag.contains('/'),
        !tag.contains('\0'),
        tag != seq!['.'],
        tag != seq!['.', '.'],
{
    assert forall|i: int| 0 <= i < tag.len() implies tag[i] != '/' && tag[i] != '\0' by {
        assert(valid_tag_char(tag[i]));
    }
    assert(tag[0] != '.');
    assert(seq!['.'][0] == '.' && seq!['.', '.'][0] == '.');
}

} // verus!
