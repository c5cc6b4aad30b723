use vstd::prelude::*;

use crate::errors::Error;
use sha2::Digest;

verus! {

// The Integrity Verifier: a downloaded archive is accepted only when the
// lowercase hexadecimal rendering of its SHA-256 digest equals the expected
// digest text, compared exactly after trimming surrounding whitespace.

/// The SHA-256 digest of a byte sequence. The digest is a function of the
/// input bytes alone; what it is on given bytes only the hash implementation
/// says, so nothing here pins it down.
pub uninterp spec fn sha256_of(data: Seq<u8>) -> Seq<u8>;

/// Relies on sha2's `Sha256`, through `digest::Digest::digest`: the 32-byte
/// SHA-256 digest of the input, a function of the input bytes alone.
#[verifier::external_body]
fn sha256(data: &Vec<u8>) -> (r: Vec<u8>)
    ensures
        r@ == sha256_of(data@),
        r@.len() == 32,
{
    sha2::Sha256::digest(data).to_vec()
}

/// The lowercase hexadecimal digit for a value below 16, as an ASCII byte.
pub open spec fn hex_digit(d: u8) -> u8 {
    if d < 10 {
        (0x30 + d) as u8
    } else {
        (0x57 + d) as u8
    }
}

/// Lowercase hexadecimal rendering of a byte sequence: two digits per byte,
/// high nibble first.
pub open spec fn hex_of(data: Seq<u8>) -> Seq<u8>
    decreases data.len(),
{
    if data.len() == 0 {
        Seq::empty()
    } else {
        hex_of(data.drop_last()).push(hex_digit(data.last() / 16)).push(
            hex_digit(data.last() % 16),
        )
    }
}

/// Hexadecimal rendering yields two digits per byte.
pub proof fn lemma_hex_of_len(data: Seq<u8>)
    ensures
        hex_of(data).len() == 2 * data.len(),
    decreases data.len(),
{
    if data.len() > 0 {
        lemma_hex_of_len(data.drop_last());
    }
}

fn hex_digit_exec(d: u8) -> (r: u8)
    requires
        d < 16,
    ensures
        r == hex_digit(d),
{
    if d < 10 {
        0x30 + d
    } else {
        0x57 + d
    }
}

/// Renders bytes as lowercase hexadecimal ASCII.
fn to_hex(data: &Vec<u8>) -> (r: Vec<u8>)
    ensures
        r@ == hex_of(data@),
{
    let mut r: Vec<u8> = Vec::new();
    let mut i: usize = 0;
    proof {
        assert(data@.subrange(0, 0) =~= Seq::<u8>::empty());
    }
    while i < data.len()
        invariant
            i <= data.len(),
            r@ == hex_of(data@.subrange(0, i as int)),
        decreases data.len() - i,
    {
        let b = data[i];
        r.push(hex_digit_exec(b / 16));
        r.push(hex_digit_exec(b % 16));
        proof {
            let pre = data@.subrange(0, i as int);
            let post = data@.subrange(0, i as int + 1);
            assert(post.drop_last() =~= pre);
            assert(post.last() == data@[i as int]);
        }
        i = i + 1;
    }
    proof {
        assert(data@.subrange(0, data@.len() as int) =~= data@);
    }
    r
}

/// ASCII whitespace: space, tab, line feed, form feed, carriage return.
pub open spec fn is_space(b: u8) -> bool {
    b == 0x20 || b == 0x09 || b == 0x0a || b == 0x0c || b == 0x0d
}

/// The sequence without its leading whitespace.
pub open spec fn trim_front(s: Seq<u8>) -> Seq<u8>
    decreases s.len(),
{
    if s.len() > 0 && is_space(s[0]) {
        trim_front(s.drop_first())
    } else {
        s
    }
}

/// The sequence without its trailing whitespace.
pub open spec fn trim_back(s: Seq<u8>) -> Seq<u8>
    decreases s.len(),
{
    if s.len() > 0 && is_space(s.last()) {
        trim_back(s.drop_last())
    } else {
        s
    }
}

/// The sequence without surrounding whitespace.
pub open spec fn trim_of(s: Seq<u8>) -> Seq<u8> {
    trim_back(trim_front(s))
}

proof fn lemma_trim_front_skip(s: Seq<u8>, i: int)
    requires
        0 <= i <= s.len(),
        forall|k: int| 0 <= k < i ==> is_space(s[k]),
    ensures
        trim_front(s) == trim_front(s.skip(i)),
    decreases i,
{
    if i > 0 {
        assert(is_space(s[0]));
        assert(s.drop_first() =~= s.skip(1));
        assert forall|k: int| 0 <= k < i - 1 implies is_space(s.skip(1)[k]) by {
            assert(s.skip(1)[k] == s[k + 1]);
        }
        lemma_trim_front_skip(s.skip(1), i - 1);
        assert(s.skip(1).skip(i - 1) =~= s.skip(i));
    } else {
        assert(s.skip(0) =~= s);
    }
}

proof fn lemma_trim_back_take(s: Seq<u8>, i: int)
    requires
        0 <= i <= s.len(),
        forall|k: int| i <= k < s.len() ==> is_space(s[k]),
    ensures
        trim_back(s) == trim_back(s.take(i)),
    decreases s.len() - i,
{
    if i < s.len() {
        assert(is_space(s.last()));
        assert(s.drop_last() =~= s.take(s.len() - 1));
        assert forall|k: int| i <= k < s.len() - 1 implies is_space(
            #[trigger] s.take(s.len() - 1)[k],
        ) by {
            assert(s.take(s.len() - 1)[k] == s[k]);
        }
        lemma_trim_back_take(s.take(s.len() - 1), i);
        assert(s.take(s.len() - 1).take(i) =~= s.take(i));
    } else {
        assert(s.take(i) =~= s);
    }
}

fn is_space_exec(b: u8) -> (r: bool)
    ensures
        r == is_space(b),
{
    b == 0x20 || b == 0x09 || b == 0x0a || b == 0x0c || b == 0x0d
}

/// Removes leading and trailing ASCII whitespace from a byte vector.
fn trim_bytes(s: &Vec<u8>) -> (r: Vec<u8>)
    ensures
        r@ == trim_of(s@),
{
    let mut start: usize = 0;
    while start < s.len() && is_space_exec(s[start])
        invariant
            start <= s.len(),
            forall|k: int| 0 <= k < start ==> is_space(s@[k]),
        decreases s.len() - start,
    {
        start = start + 1;
    }
    proof {
        lemma_trim_front_skip(s@, start as int);
        // The scan stopped at the end or at a non-whitespace byte, so the
        // front-trimmed sequence is exactly the tail from `start`.
        let tail = s@.skip(start as int);
        if start < s@.len() {
            assert(tail[0] == s@[start as int]);
        }
        assert(trim_front(tail) == tail);
        assert(trim_front(s@) == tail);
    }
    let mut end: usize = s.len();
    while end > start && is_space_exec(s[end - 1])
        invariant
            start <= end <= s.len(),
            forall|k: int| end <= k < s.len() ==> is_space(s@[k]),
            trim_front(s@) == trim_front(s@.skip(start as int)),
        decreases end,
    {
        end = end - 1;
    }
    let ghost tail = s@.skip(start as int);
    proof {
        assert forall|k: int| end - start <= k < tail.len() implies is_space(tail[k]) by {
            assert(tail[k] == s@[start + k]);
        }
        lemma_trim_back_take(tail, end - start);
    }
    let mut r: Vec<u8> = Vec::new();
    let mut i: usize = start;
    while i < end
        invariant
            start <= i <= end <= s.len(),
            r@ =~= s@.subrange(start as int, i as int),
        decreases end - i,
    {
        r.push(s[i]);
        i = i + 1;
    }
    proof {
        let t = tail.take(end - start);
        assert(r@ =~= t);
        if end > start {
            // The back scan stopped at a non-whitespace byte, so trimming
            // the truncated tail removes nothing further.
            assert(t.last() == s@[end - 1]);
            assert(trim_back(t) == t);
        } else {
            assert(t =~= Seq::<u8>::empty());
        }
    }
    r
}

/// The downloaded archive matches the expected digest text: the lowercase
/// hexadecimal SHA-256 of the bytes equals the text once surrounding
/// whitespace is trimmed.
pub open spec fn digest_ok(data: Seq<u8>, expected: Seq<u8>) -> bool {
    hex_of(sha256_of(data)) == trim_of(expected)
}

/// The lowercase hexadecimal SHA-256 digest of the given bytes, as ASCII:
/// the 256-bit hash rendered as 64 hexadecimal characters.
pub fn digest_hex(data: &Vec<u8>) -> (r: Vec<u8>)
    ensures
        r@ == hex_of(sha256_of(data@)),
        r@.len() == 64,
{
    let d = sha256(data);
    proof {
        lemma_hex_of_len(d@);
    }
    to_hex(&d)
}

/// Accepts the bytes exactly when their digest matches the expected digest
/// text; any mismatch is the fatal integrity error.
pub fn verify(data: &Vec<u8>, expected: &Vec<u8>) -> (r: Result<(), Error>)
    ensures
        r is Ok <==> digest_ok(data@, expected@),
        r is Err ==> r->Err_0 == Error::Integrity,
{
    let h = digest_hex(data);
    let t = trim_bytes(expected);
    if eq_bytes(&h, &t) {
        Ok(())
    } else {
        Err(Error::Integrity)
    }
}

fn eq_bytes(a: &Vec<u8>, b: &Vec<u8>) -> (r: bool)
    ensures
        r == (a@ == b@),
{
    if a.len() != b.len() {
        return false;
    }
    let mut i: usize = 0;
    while i < a.len()
        invariant
            a@.len() == b@.len(),
            i <= a.len(),
            forall|k: int| 0 <= k < i ==> a@[k] == b@[k],
        decreases a.len() - i,
    {
        if a[i] != b[i] {
            return false;
        }
        i = i + 1;
    }
    proof {
        assert(a@ =~= b@);
    }
    true
}

} // verus!
