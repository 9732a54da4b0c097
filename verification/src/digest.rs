use vstd::prelude::*;
use vstd::string::StringExecFns;

verus! {

/// The 20-byte digest that the fast, legacy algorithm assigns to a byte
/// sequence; a function of the bytes alone.
pub uninterp spec fn sha1_of(content: Seq<u8>) -> Seq<u8>;

/// The 32-byte digest that the stronger algorithm assigns to a byte
/// sequence; a function of the bytes alone.
pub uninterp spec fn sha256_of(content: Seq<u8>) -> Seq<u8>;

/// Relies on sha1::Sha1 through digest::Digest::digest: the digest depends on
/// the input bytes alone, and its output size is 20 bytes.
#[verifier::external_body]
fn sha1_bytes(content: &[u8]) -> (r: Vec<u8>)
    ensures
        r@ == sha1_of(content@),
        r@.len() == 20,
{
    <sha1::Sha1 as sha1::Digest>::digest(content).to_vec()
}

/// Relies on sha2::Sha256 through digest::Digest::digest: the digest depends
/// on the input bytes alone, and its output size is 32 bytes.
#[verifier::external_body]
fn sha256_bytes(content: &[u8]) -> (r: Vec<u8>)
    ensures
        r@ == sha256_of(content@),
        r@.len() == 32,
{
    <sha2::Sha256 as sha2::Digest>::digest(content).to_vec()
}

/// The lower-case hexadecimal digit for a value below sixteen.
pub open spec fn hex_digit(d: u8) -> char
    recommends
        d < 16,
{
    if d == 0 {
        '0'
    } else if d == 1 {
        '1'
    } else if d == 2 {
        '2'
    } else if d == 3 {
        '3'
    } else if d == 4 {
        '4'
    } else if d == 5 {
        '5'
    } else if d == 6 {
        '6'
    } else if d == 7 {
        '7'
    } else if d == 8 {
        '8'
    } else if d == 9 {
        '9'
    } else if d == 10 {
        'a'
    } else if d == 11 {
        'b'
    } else if d == 12 {
        'c'
    } else if d == 13 {
        'd'
    } else if d == 14 {
        'e'
    } else {
        'f'
    }
}

/// The two hexadecimal digits of one byte, high nibble first.
pub open spec fn hex_pair(b: u8) -> Seq<char> {
    seq![hex_digit(b / 16), hex_digit(b % 16)]
}

/// Lower-case hexadecimal encoding of a byte sequence.
pub open spec fn hex_of(bytes: Seq<u8>) -> Seq<char>
    decreases bytes.len(),
{
    if bytes.len() == 0 {
        Seq::empty()
    } else {
        hex_of(bytes.drop_last()) + hex_pair(bytes.last())
    }
}

pub proof fn lemma_hex_of_len(bytes: Seq<u8>)
    ensures
        hex_of(bytes).len() == 2 * bytes.len(),
    decreases bytes.len(),
{
    if bytes.len() > 0 {
        lemma_hex_of_len(bytes.drop_last());
    }
}

pub(crate) fn hex_digit_str(d: u8) -> (r: &'static str)
    requires
        d < 16,
    ensures
        r@ == seq![hex_digit(d)],
{
    let r: &'static str = match d {
        0 => "0",
        1 => "1",
        2 => "2",
        3 => "3",
        4 => "4",
        5 => "5",
        6 => "6",
        7 => "7",
        8 => "8",
        9 => "9",
        10 => "a",
        11 => "b",
        12 => "c",
        13 => "d",
        14 => "e",
        _ => "f",
    };
    proof {
        reveal_strlit("0");
        reveal_strlit("1");
        reveal_strlit("2");
        reveal_strlit("3");
        reveal_strlit("4");
        reveal_strlit("5");
        reveal_strlit("6");
        reveal_strlit("7");
        reveal_strlit("8");
        reveal_strlit("9");
        reveal_strlit("a");
        reveal_strlit("b");
        reveal_strlit("c");
        reveal_strlit("d");
        reveal_strlit("e");
        reveal_strlit("f");
        assert(r@ =~= seq![hex_digit(d)]);
    }
    r
}

/// Encodes bytes as lower-case hexadecimal, two digits per byte.
pub fn to_hex(bytes: &[u8]) -> (r: String)
    ensures
        r@ == hex_of(bytes@),
{
    let mut s = String::new();
    let mut i: usize = 0;
    while i < bytes.len()
        invariant
            i <= bytes@.len(),
            s@ == hex_of(bytes@.take(i as int)),
        decreases bytes@.len() - i,
    {
        let b = bytes[i];
        s.append(hex_digit_str(b / 16));
        s.append(hex_digit_str(b % 16));
        proof {
            let t = bytes@.take(i + 1 as int);
            assert(t.drop_last() =~= bytes@.take(i as int));
            assert(t.last() == bytes@[i as int]);
            assert(s@ =~= hex_of(bytes@.take(i + 1 as int)));
        }
        i = i + 1;
    }
    proof {
        assert(bytes@.take(i as int) =~= bytes@);
    }
    s
}

/// A file name paired with its two computed digests; recomputed at every
/// render, never persisted.
pub struct HashedFile {
    pub name: String,
    pub digest_a: String,
    pub digest_b: String,
}

/// The mathematical value of a `HashedFile`.
pub ghost struct HashedFileV {
    pub name: Seq<char>,
    pub digest_a: Seq<char>,
    pub digest_b: Seq<char>,
}

impl View for HashedFile {
    type V = HashedFileV;

    open spec fn view(&self) -> HashedFileV {
        HashedFileV { name: self.name@, digest_a: self.digest_a@, digest_b: self.digest_b@ }
    }
}

/// The digests a given content must carry in the rendered output.
pub open spec fn spec_hashed(name: Seq<char>, content: Seq<u8>) -> HashedFileV {
    HashedFileV {
        name,
        digest_a: hex_of(sha1_of(content)),
        digest_b: hex_of(sha256_of(content)),
    }
}

/// Computes both digests of one file's content, independently, over the same
/// byte sequence, and pairs them with the file's name.
pub fn hash_file(name: String, content: &[u8]) -> (h: HashedFile)
    ensures
        h@ == spec_hashed(name@, content@),
        h@.digest_a.len() == 40,
        h@.digest_b.len() == 64,
{
    let a = sha1_bytes(content);
    let b = sha256_bytes(content);
    proof {
        lemma_hex_of_len(sha1_of(content@));
        lemma_hex_of_len(sha256_of(content@));
    }
    HashedFile { name, digest_a: to_hex(a.as_slice()), digest_b: to_hex(b.as_slice()) }
}

/// Hashing is deterministic: both digests are functions of the content alone,
/// so hashing equal contents, in however many separate calls, always yields
/// equal digestA values and equal digestB values, whatever names the files
/// are hashed under.
pub proof fn lemma_hash_deterministic(name1: Seq<char>, name2: Seq<char>, c1: Seq<u8>, c2: Seq<u8>)
    requires
        c1 == c2,
    ensures
        spec_hashed(name1, c1).digest_a == spec_hashed(name2, c2).digest_a,
        spec_hashed(name1, c1).digest_b == spec_hashed(name2, c2).digest_b,
{
}

} // verus!
