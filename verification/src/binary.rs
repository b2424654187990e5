//! The firmware binary to be served: its path, the name it is requested
//! under, and its checksum as the flash command reports it.

use vstd::prelude::*;
use crate::error::Error;

verus! {

/// A firmware binary, named by its path. The content itself is read by
/// the caller and handed to whatever needs it as plain bytes.
#[derive(Debug, Clone)]
pub struct Binary {
    path: String,
}

impl View for Binary {
    type V = Seq<char>;

    closed spec fn view(&self) -> Seq<char> {
        self.path@
    }
}

/// Relies on std::path::Path::exists: whether the path points at an
/// existing filesystem entity. The answer depends on what is on disk, so
/// nothing is promised of it.
#[verifier::external_body]
fn path_exists(path: &str) -> bool {
    std::path::Path::new(path).exists()
}

/// Relies on std::path::Path::is_file: whether the path points at a
/// regular file. The answer depends on what is on disk, so nothing is
/// promised of it.
#[verifier::external_body]
fn path_is_file(path: &str) -> bool {
    std::path::Path::new(path).is_file()
}

/// The index right after the last `/` of `s`; 0 if there is no `/`.
pub open spec fn base_start(s: Seq<char>) -> int
    decreases s.len(),
{
    if s.len() == 0 {
        0
    } else if s.last() == '/' {
        s.len() as int
    } else {
        base_start(s.drop_last())
    }
}

/// `base_start` points right after the last slash: nothing at or after it
/// is a slash, and the character before it (if any) is one.
pub proof fn lemma_base_start(s: Seq<char>)
    ensures
        0 <= base_start(s) <= s.len(),
        forall|j: int| base_start(s) <= j < s.len() ==> s[j] != '/',
        base_start(s) > 0 ==> s[base_start(s) - 1] == '/',
    decreases s.len(),
{
    if s.len() == 0 {
    } else if s.last() == '/' {
    } else {
        lemma_base_start(s.drop_last());
        assert forall|j: int| base_start(s) <= j < s.len() implies s[j] != '/' by {
            if j < s.len() - 1 {
                assert(s.drop_last()[j] == s[j]);
            }
        }
        if base_start(s) > 0 {
            assert(s.drop_last()[base_start(s) - 1] == s[base_start(s) - 1]);
        }
    }
}

impl Binary {
    /// Checks that the path points at a regular file and wraps it. The
    /// disk decides: a missing path and a non-file path are the two
    /// rejections, anything accepted carries the path through unchanged.
    pub fn new(path: &str) -> (r: Result<Binary, Error>)
        ensures
            r matches Ok(b) ==> b@ == path@,
            r matches Err(e) ==> e is InvalidBinary,
    {
        let exists = path_exists(path);
        let is_file = path_is_file(path);
        Binary::validate(path, exists, is_file)
    }

    /// The decision [`Binary::new`] makes once the filesystem has
    /// answered: absent paths are rejected as not found, present
    /// non-files as not a file, and a present regular file is accepted.
    pub fn validate(path: &str, exists: bool, is_file: bool) -> (r: Result<Binary, Error>)
        ensures
            !exists ==> (r matches Err(e) && e matches Error::InvalidBinary { msg } && msg@
                == "not found!"@),
            exists && !is_file ==> (r matches Err(e) && e matches Error::InvalidBinary { msg }
                && msg@ == "binary must be a file"@),
            exists && is_file ==> (r matches Ok(b) && b@ == path@),
    {
        if !exists {
            return Err(Error::InvalidBinary { msg: String::from_str("not found!") });
        }
        if !is_file {
            return Err(Error::InvalidBinary { msg: String::from_str("binary must be a file") });
        }
        Ok(Binary { path: path.to_owned() })
    }

    /// A copy with the same view, for handing one binary to two owners.
    pub fn duplicate(&self) -> (r: Binary)
        ensures
            r@ == self@,
    {
        Binary { path: self.path.clone() }
    }

    /// The path as given.
    pub fn path(&self) -> (r: &String)
        ensures
            r@ == self@,
    {
        &self.path
    }

    /// The file's name: everything after the last `/` of the path, the
    /// whole path if it has none.
    pub fn basename(&self) -> (r: String)
        ensures
            r@ == self@.skip(base_start(self@)),
    {
        let s = self.path.as_str();
        let len = s.unicode_len();
        let mut i: usize = len;
        while i > 0 && s.get_char(i - 1) != '/'
            invariant
                i <= len == s@.len(),
                forall|j: int| i <= j < len ==> s@[j] != '/',
            decreases i,
        {
            i = i - 1;
        }
        proof {
            lemma_base_start(s@);
            let bs = base_start(s@);
            if i < bs {
                assert(s@[bs - 1] != '/');
                assert(false);
            }
            if bs < i {
                assert(s@[i - 1] != '/');
                assert(false);
            }
        }
        let base = s.substring_char(i, len);
        proof {
            assert(base@ =~= self@.skip(base_start(self@)));
        }
        base.to_owned()
    }

    /// The hex rendering of the content's SHA-256 digest, each byte as
    /// its shortest hex numeral.
    pub fn sha256sum(content: &[u8]) -> (r: String)
        ensures
            r@ == hex_chars(sha256_of(content@)),
    {
        let digest = sha256_digest(content);
        let mut s = String::new();
        let mut i: usize = 0;
        proof {
            assert(digest@.take(0) =~= Seq::<u8>::empty());
        }
        while i < 32
            invariant
                i <= 32,
                digest@.len() == 32,
                digest@ == sha256_of(content@),
                s@ == hex_chars(digest@.take(i as int)),
            decreases 32 - i,
        {
            let b = digest[i];
            let h = hex_byte_string(b);
            s.append(h.as_str());
            i = i + 1;
            proof {
                assert(digest@.take(i as int).drop_last() =~= digest@.take(i - 1));
            }
        }
        proof {
            assert(digest@.take(32) =~= digest@);
        }
        s
    }
}

/// The SHA-256 digest of a byte sequence, as the checksum collaborator
/// computes it; a function of the bytes alone.
pub uninterp spec fn sha256_of(b: Seq<u8>) -> Seq<u8>;

/// Relies on hmac_sha256::Hash::hash: the SHA-256 digest of the input,
/// 32 bytes, a function of the input alone.
#[verifier::external_body]
fn sha256_digest(content: &[u8]) -> (r: [u8; 32])
    ensures
        r@ == sha256_of(content@),
        r@.len() == 32,
{
    hmac_sha256::Hash::hash(content)
}

/// The hex digit character for a value below sixteen.
pub open spec fn hex_digit_char(n: nat) -> char {
    if n < 10 {
        (48 + n) as char
    } else {
        (87 + n) as char
    }
}

/// One byte as its shortest hex numeral: one digit below sixteen, two
/// digits otherwise.
pub open spec fn hex_byte_chars(b: u8) -> Seq<char> {
    if b < 16 {
        seq![hex_digit_char(b as nat)]
    } else {
        seq![hex_digit_char((b / 16) as nat), hex_digit_char((b % 16) as nat)]
    }
}

/// A byte sequence as the concatenation of its bytes' shortest hex
/// numerals.
pub open spec fn hex_chars(b: Seq<u8>) -> Seq<char>
    decreases b.len(),
{
    if b.len() == 0 {
        Seq::empty()
    } else {
        hex_chars(b.drop_last()) + hex_byte_chars(b.last())
    }
}

/// Writes one byte as its shortest hex numeral.
fn hex_byte_string(b: u8) -> (r: String)
    ensures
        r@ == hex_byte_chars(b),
{
    if b < 16 {
        hex_digit_string(b)
    } else {
        let mut s = hex_digit_string(b / 16);
        let low = hex_digit_string(b % 16);
        s.append(low.as_str());
        proof {
            assert(s@ =~= hex_byte_chars(b));
        }
        s
    }
}

/// The single hex digit for a value below sixteen.
fn hex_digit_string(n: u8) -> (r: String)
    requires
        n < 16,
    ensures
        r@ == seq![hex_digit_char(n as nat)],
{
    let s: &str = match n {
        0 => "0",
        1 => "1",
        2 => "2",
        3 => "3",
        4 => "4",
        5 => "5",
        6 => "6",
        7 => "7",
        8 => "8",
        9 => "9",
        10 => "a",
        11 => "b",
        12 => "c",
        13 => "d",
        14 => "e",
        _ => "f",
    };
    proof {
        reveal_strlit("0");
        reveal_strlit("1");
        reveal_strlit("2");
        reveal_strlit("3");
        reveal_strlit("4");
        reveal_strlit("5");
        reveal_strlit("6");
        reveal_strlit("7");
        reveal_strlit("8");
        reveal_strlit("9");
        reveal_strlit("a");
        reveal_strlit("b");
        reveal_strlit("c");
        reveal_strlit("d");
        reveal_strlit("e");
        reveal_strlit("f");
        assert(s@ =~= seq![hex_digit_char(n as nat)]);
    }
    s.to_owned()
}

} // verus!
