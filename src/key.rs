//! Keys of the key-value store.

use vstd::prelude::*;

use crate::text::string_from_chars;

verus! {

/// The longest key, in characters, that normalisation keeps.
pub const MAX_KEY_LEN: usize = 256;

/// Whether `c` may stand in a normalised key as it is.
pub open spec fn is_slug_char(c: char) -> bool {
    ('a' <= c && c <= 'z') || ('0' <= c && c <= '9') || c == '-' || c == '/'
}

/// What one character of a user string becomes in a normalised key: ASCII
/// capitals are lowered, allowed characters stay, anything else turns into `-`.
pub open spec fn slug_char(c: char) -> char {
    if 'A' <= c && c <= 'Z' {
        ((c as u32) + 32) as char
    } else if is_slug_char(c) {
        c
    } else {
        '-'
    }
}

/// The normalised form of a user string: its first `MAX_KEY_LEN` characters,
/// each mapped by `slug_char`.
pub open spec fn slugify(s: Seq<char>) -> Seq<char> {
    let kept = if s.len() <= MAX_KEY_LEN {
        s
    } else {
        s.subrange(0, MAX_KEY_LEN as int)
    };
    kept.map_values(|c: char| slug_char(c))
}

fn slug_char_exec(c: char) -> (r: char)
    ensures
        r == slug_char(c),
{
    if 'A' <= c && c <= 'Z' {
        ((c as u8) + 32) as char
    } else if ('a' <= c && c <= 'z') || ('0' <= c && c <= '9') || c == '-' || c == '/' {
        c
    } else {
        '-'
    }
}

/// A key that is safe to use directly in the key-value store.
#[derive(Debug)]
pub struct Key(String);

impl View for Key {
    type V = Seq<char>;

    closed spec fn view(&self) -> Seq<char> {
        self.0@
    }
}

impl Key {
    /// Normalises `s` into a key: see `slugify`.
    pub fn new(s: &str) -> (k: Key)
        ensures
            k@ == slugify(s@),
    {
        let len = s.unicode_len();
        let n: usize = if len <= MAX_KEY_LEN {
            len
        } else {
            MAX_KEY_LEN
        };
        let ghost kept = if s@.len() <= MAX_KEY_LEN {
            s@
        } else {
            s@.subrange(0, MAX_KEY_LEN as int)
        };
        let mut out: Vec<char> = Vec::new();
        let mut i: usize = 0;
        while i < n
            invariant
                n == kept.len(),
                n <= s@.len(),
                i <= n,
                kept == s@.subrange(0, n as int),
                out@ == kept.subrange(0, i as int).map_values(|c: char| slug_char(c)),
            decreases n - i,
        {
            let c = s.get_char(i);
            out.push(slug_char_exec(c));
            i = i + 1;
            proof {
                assert(kept.subrange(0, i as int) == kept.subrange(0, i - 1).push(c));
            }
        }
        assert(kept.subrange(0, n as int) == kept);
        Key(string_from_chars(&out))
    }

    /// Makes a key of `s` as it stands; `s` is taken to be safe for the store already.
    pub fn from_raw(s: String) -> (k: Key)
        ensures
            k@ == s@,
    {
        Key(s)
    }

    /// The key's text.
    pub fn as_str(&self) -> (r: &str)
        ensures
            r@ == self@,
    {
        self.0.as_str()
    }

    /// The key's text, as an owned string.
    pub fn to_string(&self) -> (r: String)
        ensures
            r@ == self@,
    {
        self.0.clone()
    }
}

impl Clone for Key {
    fn clone(&self) -> (r: Key)
        ensures
            r@ == self@,
    {
        Key(self.0.clone())
    }
}

impl PartialEq for Key {
    fn eq(&self, other: &Key) -> (r: bool) {
        self.0 == other.0
    }
}

impl vstd::std_specs::cmp::PartialEqSpecImpl for Key {
    open spec fn obeys_eq_spec() -> bool {
        true
    }

    open spec fn eq_spec(&self, other: &Key) -> bool {
        self@ == other@
    }
}

impl<'a> From<&'a str> for Key {
    /// Normalises `s` into a key, as `Key::new` does.
    fn from(s: &'a str) -> (k: Key)
        ensures
            k@ == slugify(s@),
    {
        Key::new(s)
    }
}

impl<'a> vstd::std_specs::convert::FromSpecImpl<&'a str> for Key {
    open spec fn obeys_from_spec() -> bool {
        false
    }

    closed spec fn from_spec(s: &'a str) -> Key {
        choose|k: Key| k@ == slugify(s@)
    }
}

} // verus!
