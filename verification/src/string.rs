use vstd::prelude::*;

use crate::encoding::{
    chars_to_string, cmp_chars, lemma_chars_cmp_eq, spec_chars_cmp, spec_latin1_chars,
    spec_utf16_decode, spec_utf16_lossy, spec_utf16_units, str_to_chars, utf16_decode,
    utf16_decode_lossy, utf16_units, NameOrdering,
};
use crate::encoding::{char_from_u32, latin1_chars};

verus! {

/// The uppercase form of an ASCII letter; all other bytes are unchanged.
pub open spec fn spec_ascii_upper_byte(b: u8) -> u8 {
    if 97 <= b <= 122 {
        (b - 32) as u8
    } else {
        b
    }
}

/// The uppercase form of an ASCII letter; all other characters are unchanged.
pub open spec fn spec_ascii_upper_char(c: char) -> char {
    if 97 <= c as u32 <= 122 {
        ((c as u32 - 32) as u32) as char
    } else {
        c
    }
}

/// Byte-wise ASCII case fold.
pub open spec fn spec_ascii_fold_bytes(bs: Seq<u8>) -> Seq<u8> {
    bs.map_values(|b: u8| spec_ascii_upper_byte(b))
}

/// Character-wise ASCII case fold.
pub open spec fn spec_ascii_fold_chars(cs: Seq<char>) -> Seq<char> {
    cs.map_values(|c: char| spec_ascii_upper_char(c))
}

/// True when every byte is in the ASCII range.
pub open spec fn spec_all_ascii(bs: Seq<u8>) -> bool {
    forall|i: int| 0 <= i < bs.len() ==> bs[i] < 0x80
}

/// The characters that an ASCII byte stream denotes when read lossily: bytes
/// outside the ASCII range become U+FFFD.
pub open spec fn spec_ascii_lossy_chars(bs: Seq<u8>) -> Seq<char> {
    Seq::new(bs.len(), |i: int| if bs[i] < 0x80 {
        (bs[i] as u32) as char
    } else {
        '\u{FFFD}'
    })
}

/// Maps an ASCII letter to its uppercase form; other characters are
/// unchanged.
pub(crate) fn ascii_upper_char(c: char) -> (r: char)
    ensures
        r == spec_ascii_upper_char(c),
{
    let u = c as u32;
    if 97 <= u && u <= 122 {
        match char_from_u32(u - 32) {
            Some(r) => r,
            None => {
                proof {
                    assert(false);
                }
                c
            },
        }
    } else {
        c
    }
}

/// True when the two byte sequences are equal.
pub(crate) fn eq_bytes(a: &[u8], b: &[u8]) -> (r: bool)
    ensures
        r == (a@ == b@),
{
    let a_len = a.len();
    let b_len = b.len();
    if a_len != b_len {
        proof {
            assert(a@.len() != b@.len());
        }
        return false;
    }
    let mut i: usize = 0;
    while i < a_len
        invariant
            i <= a_len,
            a_len == a@.len(),
            a_len == b@.len(),
            forall|k: int| 0 <= k < i ==> a@[k] == b@[k],
        decreases a_len - i,
    {
        if a[i] != b[i] {
            return false;
        }
        i = i + 1;
    }
    proof {
        assert(a@ =~= b@);
    }
    true
}

/// True when the two byte sequences are equal under the ASCII case fold.
pub(crate) fn eq_bytes_ignore_ascii_case(a: &[u8], b: &[u8]) -> (r: bool)
    ensures
        r == (spec_ascii_fold_bytes(a@) == spec_ascii_fold_bytes(b@)),
{
    let a_len = a.len();
    let b_len = b.len();
    if a_len != b_len {
        proof {
            assert(spec_ascii_fold_bytes(a@).len() != spec_ascii_fold_bytes(b@).len());
        }
        return false;
    }
    let mut i: usize = 0;
    while i < a_len
        invariant
            i <= a_len,
            a_len == a@.len(),
            a_len == b@.len(),
            forall|k: int| 0 <= k < i ==> spec_ascii_fold_bytes(a@)[k] == spec_ascii_fold_bytes(
                b@,
            )[k],
        decreases a_len - i,
    {
        let ba = a[i];
        let bb = b[i];
        let fa = if 97 <= ba && ba <= 122 {
            ba - 32
        } else {
            ba
        };
        let fb = if 97 <= bb && bb <= 122 {
            bb - 32
        } else {
            bb
        };
        if fa != fb {
            proof {
                assert(spec_ascii_fold_bytes(a@)[i as int] == fa);
                assert(spec_ascii_fold_bytes(b@)[i as int] == fb);
            }
            return false;
        }
        i = i + 1;
    }
    proof {
        assert(spec_ascii_fold_bytes(a@) =~= spec_ascii_fold_bytes(b@));
    }
    true
}

/// Character-wise ASCII case fold of a vector.
pub(crate) fn ascii_fold_chars(cs: &Vec<char>) -> (r: Vec<char>)
    ensures
        r@ == spec_ascii_fold_chars(cs@),
{
    let len = cs.len();
    let mut r: Vec<char> = Vec::new();
    let mut i: usize = 0;
    while i < len
        invariant
            i <= len,
            len == cs@.len(),
            r@ == spec_ascii_fold_chars(cs@).subrange(0, i as int),
        decreases len - i,
    {
        let f = ascii_upper_char(cs[i]);
        r.push(f);
        i = i + 1;
        proof {
            assert(r@ =~= spec_ascii_fold_chars(cs@).subrange(0, i as int));
        }
    }
    proof {
        assert(spec_ascii_fold_chars(cs@).subrange(0, cs@.len() as int) =~= spec_ascii_fold_chars(
            cs@,
        ));
    }
    r
}

/// True when the two character vectors are equal.
pub(crate) fn eq_chars(a: &Vec<char>, b: &Vec<char>) -> (r: bool)
    ensures
        r == (a@ == b@),
{
    let c = cmp_chars(a, b);
    proof {
        lemma_chars_cmp_eq(a@, b@);
    }
    match c {
        NameOrdering::Equal => true,
        _ => false,
    }
}

/// Zero-copy representation of a string stored in hive data.
/// Can be either in ASCII or UTF-16 (Little-Endian).
///
/// This allows working with the string without performing any allocations or
/// conversions. [`to_string_checked`](NtHiveString::to_string_checked) and
/// [`to_string_lossy`](NtHiveString::to_string_lossy) retrieve a `String`.
///
/// The `Ascii` variant is, deliberately, a single-byte encoding throughout:
/// every byte denotes one code point, conversions accept exactly the 128
/// ASCII bytes the variant is specified to hold, and a byte outside that
/// range is an encoding error (or U+FFFD in the lossy conversion). The bytes
/// are never re-interpreted as a multi-byte encoding such as UTF-8; hive
/// names and values use single-byte or UTF-16LE encodings only.
#[derive(Clone, Copy, Debug)]
pub enum NtHiveString<'a> {
    /// A byte stream where each byte is one of the 128 ASCII characters.
    Ascii(&'a [u8]),
    /// A byte stream where every two bytes make up a UTF-16 code unit in
    /// little-endian order.
    Utf16LE(&'a [u8]),
}

impl<'a> NtHiveString<'a> {
    /// The raw bytes of the string.
    pub open spec fn spec_bytes(self) -> Seq<u8> {
        match self {
            NtHiveString::Ascii(b) => b@,
            NtHiveString::Utf16LE(b) => b@,
        }
    }

    /// True when this string equals the given character sequence, comparing
    /// code points exactly; an undecodable UTF-16 stream equals nothing.
    pub open spec fn spec_eq_str(self, other: Seq<char>) -> bool {
        match self {
            NtHiveString::Ascii(b) => b@ == vstd::utf8::encode_utf8(other),
            NtHiveString::Utf16LE(b) => spec_utf16_decode(spec_utf16_units(b@)) == Some(other),
        }
    }

    /// Checks whether `self` and `other` are equal, comparing code points
    /// exactly.
    pub fn eq_str(&self, other: &str) -> (r: bool)
        ensures
            r == self.spec_eq_str(other@),
    {
        match self {
            NtHiveString::Ascii(bytes) => eq_bytes(bytes, other.as_bytes()),
            NtHiveString::Utf16LE(bytes) => {
                let units = utf16_units(bytes);
                match utf16_decode(&units) {
                    Ok(cs) => {
                        let other_chars = str_to_chars(other);
                        eq_chars(&cs, &other_chars)
                    },
                    Err(_) => false,
                }
            },
        }
    }

    /// Checks whether `self` and `other` are an ASCII case-insensitive match.
    pub fn eq_ignore_ascii_case(&self, other: &str) -> (r: bool)
        ensures
            r == match *self {
                NtHiveString::Ascii(b) => spec_ascii_fold_bytes(b@) == spec_ascii_fold_bytes(
                    vstd::utf8::encode_utf8(other@),
                ),
                NtHiveString::Utf16LE(b) => match spec_utf16_decode(spec_utf16_units(b@)) {
                    Some(cs) => spec_ascii_fold_chars(cs) == spec_ascii_fold_chars(other@),
                    None => false,
                },
            },
    {
        match self {
            NtHiveString::Ascii(bytes) => eq_bytes_ignore_ascii_case(bytes, other.as_bytes()),
            NtHiveString::Utf16LE(bytes) => {
                let units = utf16_units(bytes);
                match utf16_decode(&units) {
                    Ok(cs) => {
                        let folded = ascii_fold_chars(&cs);
                        let other_chars = str_to_chars(other);
                        let other_folded = ascii_fold_chars(&other_chars);
                        eq_chars(&folded, &other_folded)
                    },
                    Err(_) => false,
                }
            },
        }
    }

    /// Returns `true` if `self` has a length of zero bytes.
    pub fn is_empty(&self) -> (r: bool)
        ensures
            r == (self.spec_bytes().len() == 0),
    {
        self.len() == 0
    }

    /// Returns the length of `self` in bytes, not characters.
    pub fn len(&self) -> (r: usize)
        ensures
            r == self.spec_bytes().len(),
    {
        match self {
            NtHiveString::Ascii(bytes) => bytes.len(),
            NtHiveString::Utf16LE(bytes) => bytes.len(),
        }
    }

    /// Attempts to convert `self` to an owned `String`.
    /// Returns `Some` if all characters could be converted successfully, or
    /// `None` if a byte outside the ASCII range or a UTF-16 decoding error
    /// occurred. An `Ascii` string is read byte per code point, never as a
    /// multi-byte encoding.
    pub fn to_string_checked(&self) -> (r: Option<String>)
        ensures
            self matches NtHiveString::Ascii(b) ==> match r {
                Some(s) => spec_all_ascii(b@) && s@ == spec_latin1_chars(b@),
                None => !spec_all_ascii(b@),
            },
            self matches NtHiveString::Utf16LE(b) ==> match r {
                Some(s) => spec_utf16_decode(spec_utf16_units(b@)) == Some(s@),
                None => spec_utf16_decode(spec_utf16_units(b@)) is None,
            },
    {
        match self {
            NtHiveString::Ascii(bytes) => {
                let len = bytes.len();
                let mut i: usize = 0;
                while i < len
                    invariant
                        i <= len,
                        len == bytes@.len(),
                        *self == NtHiveString::Ascii(*bytes),
                        forall|k: int| 0 <= k < i ==> bytes@[k] < 0x80,
                    decreases len - i,
                {
                    if bytes[i] >= 0x80 {
                        proof {
                            assert(bytes@[i as int] >= 0x80);
                            assert(!spec_all_ascii(bytes@));
                        }
                        return None;
                    }
                    i = i + 1;
                }
                let cs = latin1_chars(bytes);
                Some(chars_to_string(&cs))
            },
            NtHiveString::Utf16LE(bytes) => {
                let units = utf16_units(bytes);
                match utf16_decode(&units) {
                    Ok(cs) => Some(chars_to_string(&cs)),
                    Err(_) => None,
                }
            },
        }
    }

    /// Converts `self` to an owned `String`, replacing invalid data with the
    /// replacement character U+FFFD: each byte outside the ASCII range, and
    /// each unpaired UTF-16 surrogate, becomes one replacement character.
    pub fn to_string_lossy(&self) -> (r: String)
        ensures
            match *self {
                NtHiveString::Ascii(b) => r@ == spec_ascii_lossy_chars(b@),
                NtHiveString::Utf16LE(b) => r@ == spec_utf16_lossy(spec_utf16_units(b@)),
            },
    {
        match self {
            NtHiveString::Ascii(bytes) => {
                let len = bytes.len();
                let mut cs: Vec<char> = Vec::new();
                let mut i: usize = 0;
                while i < len
                    invariant
                        i <= len,
                        len == bytes@.len(),
                        cs@ == spec_ascii_lossy_chars(bytes@).subrange(0, i as int),
                    decreases len - i,
                {
                    let b = bytes[i];
                    if b < 0x80 {
                        let c = match char_from_u32(b as u32) {
                            Some(c) => c,
                            None => {
                                proof {
                                    assert(false);
                                }
                                ' '
                            },
                        };
                        cs.push(c);
                    } else {
                        cs.push('\u{FFFD}');
                    }
                    i = i + 1;
                    proof {
                        assert(cs@ =~= spec_ascii_lossy_chars(bytes@).subrange(0, i as int));
                    }
                }
                proof {
                    assert(spec_ascii_lossy_chars(bytes@).subrange(0, bytes@.len() as int)
                        =~= spec_ascii_lossy_chars(bytes@));
                }
                chars_to_string(&cs)
            },
            NtHiveString::Utf16LE(bytes) => {
                let units = utf16_units(bytes);
                let cs = utf16_decode_lossy(&units);
                chars_to_string(&cs)
            },
        }
    }
}

impl<'a> PartialEq<&str> for NtHiveString<'a> {
    fn eq(&self, other: &&str) -> (r: bool) {
        self.eq_str(other)
    }
}

impl<'a> vstd::std_specs::cmp::PartialEqSpecImpl<&str> for NtHiveString<'a> {
    open spec fn obeys_eq_spec() -> bool {
        true
    }

    open spec fn eq_spec(&self, other: &&str) -> bool {
        self.spec_eq_str(other@)
    }
}

/// Zero-copy representation of a key or value name stored in hive data.
/// Can be either in Latin-1 (ISO-8859-1) or UTF-16 (Little-Endian).
///
/// Name lookups compare such names case-insensitively over the Unicode Basic
/// Multilingual Plane; see the key-node lookup functions.
#[derive(Clone, Copy, Debug)]
pub enum NtHiveNameString<'a> {
    /// A byte stream where each byte is a Latin-1 code point U+0000..U+00FF.
    Latin1(&'a [u8]),
    /// A byte stream where every two bytes make up a UTF-16 code unit in
    /// little-endian order.
    Utf16LE(&'a [u8]),
}

impl<'a> NtHiveNameString<'a> {
    /// The raw bytes of the name.
    pub open spec fn spec_bytes(self) -> Seq<u8> {
        match self {
            NtHiveNameString::Latin1(b) => b@,
            NtHiveNameString::Utf16LE(b) => b@,
        }
    }

    /// The decoded characters of the name: `None` when a UTF-16 name holds an
    /// unpaired surrogate. A Latin-1 name always decodes.
    pub open spec fn spec_chars(self) -> Option<Seq<char>> {
        match self {
            NtHiveNameString::Latin1(b) => Some(spec_latin1_chars(b@)),
            NtHiveNameString::Utf16LE(b) => spec_utf16_decode(spec_utf16_units(b@)),
        }
    }

    /// True when this name equals the given character sequence, comparing
    /// code points exactly; an undecodable name equals nothing.
    pub open spec fn spec_eq_str(self, other: Seq<char>) -> bool {
        self.spec_chars() == Some(other)
    }

    /// Checks whether `self` and `other` are equal, comparing code points
    /// exactly.
    pub fn eq_str(&self, other: &str) -> (r: bool)
        ensures
            r == self.spec_eq_str(other@),
    {
        let cs = match self.decode() {
            Some(cs) => cs,
            None => {
                return false;
            },
        };
        let other_chars = str_to_chars(other);
        eq_chars(&cs, &other_chars)
    }

    /// Decodes the name; `None` when a UTF-16 name holds an unpaired
    /// surrogate.
    pub(crate) fn decode(&self) -> (r: Option<Vec<char>>)
        ensures
            match r {
                Some(cs) => self.spec_chars() == Some(cs@),
                None => self.spec_chars() is None,
            },
    {
        match self {
            NtHiveNameString::Latin1(bytes) => Some(latin1_chars(bytes)),
            NtHiveNameString::Utf16LE(bytes) => {
                let units = utf16_units(bytes);
                match utf16_decode(&units) {
                    Ok(cs) => Some(cs),
                    Err(_) => None,
                }
            },
        }
    }

    /// Returns `true` if `self` has a length of zero bytes.
    pub fn is_empty(&self) -> (r: bool)
        ensures
            r == (self.spec_bytes().len() == 0),
    {
        self.len() == 0
    }

    /// Returns the length of `self` in bytes, not characters.
    pub fn len(&self) -> (r: usize)
        ensures
            r == self.spec_bytes().len(),
    {
        match self {
            NtHiveNameString::Latin1(bytes) => bytes.len(),
            NtHiveNameString::Utf16LE(bytes) => bytes.len(),
        }
    }

    /// Attempts to convert `self` to an owned `String`.
    /// Returns `Some` if all characters could be converted successfully, or
    /// `None` if a UTF-16 decoding error occurred. A Latin-1 name always
    /// converts.
    pub fn to_string_checked(&self) -> (r: Option<String>)
        ensures
            match r {
                Some(s) => self.spec_chars() == Some(s@),
                None => self.spec_chars() is None,
            },
    {
        match self.decode() {
            Some(cs) => Some(chars_to_string(&cs)),
            None => None,
        }
    }

    /// Converts `self` to an owned `String`, replacing invalid data with the
    /// replacement character U+FFFD.
    pub fn to_string_lossy(&self) -> (r: String)
        ensures
            match *self {
                NtHiveNameString::Latin1(b) => r@ == spec_latin1_chars(b@),
                NtHiveNameString::Utf16LE(b) => r@ == spec_utf16_lossy(spec_utf16_units(b@)),
            },
    {
        match self {
            NtHiveNameString::Latin1(bytes) => {
                let cs = latin1_chars(bytes);
                chars_to_string(&cs)
            },
            NtHiveNameString::Utf16LE(bytes) => {
                let units = utf16_units(bytes);
                let cs = utf16_decode_lossy(&units);
                chars_to_string(&cs)
            },
        }
    }
}

impl<'a> PartialEq<&str> for NtHiveNameString<'a> {
    fn eq(&self, other: &&str) -> (r: bool) {
        self.eq_str(other)
    }
}

impl<'a> vstd::std_specs::cmp::PartialEqSpecImpl<&str> for NtHiveNameString<'a> {
    open spec fn obeys_eq_spec() -> bool {
        true
    }

    open spec fn eq_spec(&self, other: &&str) -> bool {
        self.spec_eq_str(other@)
    }
}

} // verus!
