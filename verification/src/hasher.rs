//! Content digests: md5 over byte chunks, rendered as lowercase hex.

use vstd::prelude::*;
use vstd::slice::slice_subrange;
use vstd::string::StringExecFns;

verus! {

/// The md5 hasher state of the md5 crate, opaque to verification.
#[verifier::external_type_specification]
#[verifier::external_body]
pub struct ExMd5(md5::Md5);

/// The bytes a hasher state has absorbed so far.
pub uninterp spec fn absorbed(h: md5::Md5) -> Seq<u8>;

/// The md5 digest of a byte sequence: sixteen bytes, a function of the
/// input bytes alone.
pub uninterp spec fn md5_bytes(data: Seq<u8>) -> Seq<u8>;

/// Relies on md5::Md5::new (the md5 crate's Digest::new): a fresh hasher
/// has absorbed nothing.
#[verifier::external_body]
fn md5_new() -> (h: md5::Md5)
    ensures
        absorbed(h) == Seq::<u8>::empty(),
{
    <md5::Md5 as md5::Digest>::new()
}

/// Relies on md5::Md5::update (the md5 crate's Digest::update): absorbing a
/// chunk appends its bytes to the absorbed stream.
#[verifier::external_body]
fn md5_update(h: &mut md5::Md5, chunk: &[u8])
    ensures
        absorbed(*final(h)) == absorbed(*old(h)) + chunk@,
{
    md5::Digest::update(h, chunk)
}

/// Relies on md5::Md5::finalize (the md5 crate's Digest::finalize): the
/// digest has sixteen bytes and depends on the absorbed bytes alone.
#[verifier::external_body]
fn md5_finalize(h: md5::Md5) -> (r: Vec<u8>)
    ensures
        r@ == md5_bytes(absorbed(h)),
        r@.len() == 16,
{
    md5::Digest::finalize(h).to_vec()
}

/// A file selected for hashing could not be opened or fully read; the scan
/// skips the file and reports it instead of aborting.
#[derive(Debug)]
pub struct HashError {
    pub path: String,
}

/// Streams byte chunks into one content digest.
pub struct StreamingHasher {
    state: md5::Md5,
}

impl StreamingHasher {
    /// The bytes fed so far, across all chunks.
    pub closed spec fn bytes_fed(&self) -> Seq<u8> {
        absorbed(self.state)
    }

    /// A hasher that has seen no bytes.
    pub fn new() -> (h: StreamingHasher)
        ensures
            h.bytes_fed() == Seq::<u8>::empty(),
    {
        StreamingHasher { state: md5_new() }
    }

    /// Feeds one chunk; the digest will cover all chunks in order.
    pub fn feed(&mut self, chunk: &[u8])
        ensures
            final(self).bytes_fed() == old(self).bytes_fed() + chunk@,
    {
        md5_update(&mut self.state, chunk);
    }

    /// The digest of everything fed, as a lowercase hex string.
    pub fn finish_hex(self) -> (r: String)
        ensures
            r@ == spec_hex(md5_bytes(self.bytes_fed())),
    {
        hex_encode(md5_finalize(self.state))
    }
}

/// Hashes a whole buffer at once.
pub fn hash_bytes(data: &Vec<u8>) -> (r: String)
    ensures
        r@ == spec_hex(md5_bytes(data@)),
{
    let mut h = StreamingHasher::new();
    h.feed(data.as_slice());
    proof {
        assert(Seq::<u8>::empty() + data@ =~= data@);
    }
    h.finish_hex()
}

/// Hashes a buffer streamed in bounded chunks. Whatever chunk size is used,
/// the digest equals the one computed over the whole buffer at once.
pub fn hash_bytes_chunked(data: &Vec<u8>, chunk_size: usize) -> (r: String)
    requires
        chunk_size >= 1,
    ensures
        r@ == spec_hex(md5_bytes(data@)),
{
    let mut h = StreamingHasher::new();
    proof {
        assert(Seq::<u8>::empty() =~= data@.take(0));
    }
    let mut pos: usize = 0;
    while pos < data.len()
        invariant
            chunk_size >= 1,
            pos <= data@.len(),
            h.bytes_fed() == data@.take(pos as int),
        decreases data@.len() - pos,
    {
        let end = if data.len() - pos < chunk_size {
            data.len()
        } else {
            pos + chunk_size
        };
        let chunk = slice_subrange(data.as_slice(), pos, end);
        h.feed(chunk);
        proof {
            assert(data@.take(pos as int) + data@.subrange(pos as int, end as int) =~= data@.take(
                end as int,
            ));
        }
        pos = end;
    }
    proof {
        assert(data@.take(data@.len() as int) =~= data@);
    }
    h.finish_hex()
}

/// The lowercase hex character for one value below sixteen.
pub open spec fn spec_hex_digit(n: u8) -> char {
    if n == 0 {
        '0'
    } else if n == 1 {
        '1'
    } else if n == 2 {
        '2'
    } else if n == 3 {
        '3'
    } else if n == 4 {
        '4'
    } else if n == 5 {
        '5'
    } else if n == 6 {
        '6'
    } else if n == 7 {
        '7'
    } else if n == 8 {
        '8'
    } else if n == 9 {
        '9'
    } else if n == 10 {
        'a'
    } else if n == 11 {
        'b'
    } else if n == 12 {
        'c'
    } else if n == 13 {
        'd'
    } else if n == 14 {
        'e'
    } else {
        'f'
    }
}

/// Two lowercase hex characters for one byte, high nibble first.
pub open spec fn spec_hex_byte(b: u8) -> Seq<char> {
    seq![spec_hex_digit(b / 16), spec_hex_digit(b % 16)]
}

/// The lowercase hex rendering of a byte sequence.
pub open spec fn spec_hex(bytes: Seq<u8>) -> Seq<char>
    decreases bytes.len(),
{
    if bytes.len() == 0 {
        Seq::empty()
    } else {
        spec_hex(bytes.drop_last()) + spec_hex_byte(bytes.last())
    }
}

/// The one-character string for one value below sixteen.
fn hex_digit_str(n: u8) -> (r: &'static str)
    requires
        n < 16,
    ensures
        r@ =~= seq![spec_hex_digit(n)],
{
    proof {
        reveal_strlit("0");
        reveal_strlit("1");
        reveal_strlit("2");
        reveal_strlit("3");
        reveal_strlit("4");
        reveal_strlit("5");
        reveal_strlit("6");
        reveal_strlit("7");
        reveal_strlit("8");
        reveal_strlit("9");
        reveal_strlit("a");
        reveal_strlit("b");
        reveal_strlit("c");
        reveal_strlit("d");
        reveal_strlit("e");
        reveal_strlit("f");
    }
    if n == 0 {
        "0"
    } else if n == 1 {
        "1"
    } else if n == 2 {
        "2"
    } else if n == 3 {
        "3"
    } else if n == 4 {
        "4"
    } else if n == 5 {
        "5"
    } else if n == 6 {
        "6"
    } else if n == 7 {
        "7"
    } else if n == 8 {
        "8"
    } else if n == 9 {
        "9"
    } else if n == 10 {
        "a"
    } else if n == 11 {
        "b"
    } else if n == 12 {
        "c"
    } else if n == 13 {
        "d"
    } else if n == 14 {
        "e"
    } else {
        "f"
    }
}

/// Renders a digest as a lowercase hex string, two characters per byte.
pub fn hex_encode(hash: Vec<u8>) -> (r: String)
    ensures
        r@ == spec_hex(hash@),
{
    let mut s = String::new();
    let mut i: usize = 0;
    while i < hash.len()
        invariant
            i <= hash@.len(),
            s@ =~= spec_hex(hash@.take(i as int)),
        decreases hash@.len() - i,
    {
        let b = hash[i];
        s.append(hex_digit_str(b / 16));
        s.append(hex_digit_str(b % 16));
        proof {
            let pre = hash@.take(i + 1);
            assert(pre.drop_last() =~= hash@.take(i as int));
            assert(pre.last() == hash@[i as int]);
        }
        i = i + 1;
    }
    proof {
        assert(hash@.take(hash@.len() as int) =~= hash@);
    }
    s
}

} // verus!
