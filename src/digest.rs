//! The digest engine: SHA-256 over a stream of bytes, rendered as lowercase hex.
use vstd::prelude::*;

verus! {

/// The raw SHA-256 digest of a byte sequence.
pub uninterp spec fn sha256_of(data: Seq<u8>) -> Seq<u8>;

/// The bytes that a running SHA-256 state has processed so far.
pub uninterp spec fn absorbed(h: HashState) -> Seq<u8>;

/// A running SHA-256 computation of the `sha2` crate. `sha2::Sha256` is an
/// alias of a nest of generic wrappers that Verus cannot declare, so the
/// hasher is held here, opaque, and its content is named by `absorbed`.
#[verifier::external_body]
pub struct HashState {
    inner: sha2::Sha256,
}

impl HashState {
    /// Relies on `sha2::Digest::new` for `Sha256`: a new hasher has processed no data.
    #[verifier::external_body]
    fn fresh() -> (r: HashState)
        ensures
            absorbed(r) == Seq::<u8>::empty(),
    {
        HashState { inner: <sha2::Sha256 as sha2::Digest>::new() }
    }

    /// Relies on `sha2::Digest::update` for `Sha256`: the data is appended to
    /// what the hasher has processed.
    #[verifier::external_body]
    fn feed(&mut self, data: &[u8])
        ensures
            absorbed(*final(self)) == absorbed(*old(self)) + data@,
    {
        sha2::Digest::update(&mut self.inner, data);
    }

    /// Relies on `sha2::Digest::finalize` for `Sha256`: the 32-byte digest of
    /// everything the hasher has processed.
    #[verifier::external_body]
    fn digest(self) -> (r: [u8; 32])
        ensures
            r@ == sha256_of(absorbed(self)),
    {
        sha2::Digest::finalize(self.inner).into()
    }
}

/// The lowercase hexadecimal digit for a value below 16.
pub open spec fn hex_digit(n: u8) -> char {
    if n < 10 {
        (('0' as u8) + n) as char
    } else {
        (('a' as u8) + (n - 10)) as char
    }
}

/// Lowercase hex of a byte sequence: two digits per byte, high nibble first.
pub open spec fn hex_lower(b: Seq<u8>) -> Seq<char>
    decreases b.len(),
{
    if b.len() == 0 {
        Seq::empty()
    } else {
        hex_lower(b.drop_last()) + seq![hex_digit(b.last() / 16), hex_digit(b.last() % 16)]
    }
}

/// The digest string of a file content: its SHA-256 digest in lowercase hex.
pub open spec fn digest_text(content: Seq<u8>) -> Seq<char> {
    hex_lower(sha256_of(content))
}

fn hex_digit_str(n: u8) -> (r: &'static str)
    requires
        n < 16,
    ensures
        r@ == seq![hex_digit(n)],
{
    proof {
        reveal_strlit("0");
        reveal_strlit("1");
        reveal_strlit("2");
        reveal_strlit("3");
        reveal_strlit("4");
        reveal_strlit("5");
        reveal_strlit("6");
        reveal_strlit("7");
        reveal_strlit("8");
        reveal_strlit("9");
        reveal_strlit("a");
        reveal_strlit("b");
        reveal_strlit("c");
        reveal_strlit("d");
        reveal_strlit("e");
        reveal_strlit("f");
    }
    match n {
        0 => "0",
        1 => "1",
        2 => "2",
        3 => "3",
        4 => "4",
        5 => "5",
        6 => "6",
        7 => "7",
        8 => "8",
        9 => "9",
        10 => "a",
        11 => "b",
        12 => "c",
        13 => "d",
        14 => "e",
        _ => "f",
    }
}

/// Renders bytes as lowercase hexadecimal text.
pub fn to_lower_hex(b: &[u8]) -> (r: String)
    ensures
        r@ == hex_lower(b@),
        r@.len() == 2 * b@.len(),
{
    let mut out = String::new();
    let mut i: usize = 0;
    while i < b.len()
        invariant
            i <= b@.len(),
            out@ == hex_lower(b@.subrange(0, i as int)),
            out@.len() == 2 * i,
        decreases b@.len() - i,
    {
        let byte = b[i];
        out.append(hex_digit_str(byte / 16));
        out.append(hex_digit_str(byte % 16));
        proof {
            let next = b@.subrange(0, i + 1);
            assert(next.drop_last() =~= b@.subrange(0, i as int));
            assert(next.last() == byte);
        }
        i = i + 1;
    }
    assert(b@.subrange(0, b@.len() as int) =~= b@);
    out
}

/// A streaming digest computation: feed a file's content in chunks of any
/// size, then take the digest of everything fed.
pub struct DigestEngine {
    state: HashState,
}

impl View for DigestEngine {
    type V = Seq<u8>;

    /// The bytes fed so far, in order.
    closed spec fn view(&self) -> Seq<u8> {
        absorbed(self.state)
    }
}

impl DigestEngine {
    /// An engine that has been fed nothing.
    pub fn new() -> (r: DigestEngine)
        ensures
            r@ == Seq::<u8>::empty(),
    {
        DigestEngine { state: HashState::fresh() }
    }

    /// Feeds the next chunk of content.
    pub fn absorb(&mut self, chunk: &[u8])
        ensures
            final(self)@ == old(self)@ + chunk@,
    {
        self.state.feed(chunk);
    }

    /// The digest string of everything fed: 64 lowercase hex digits.
    pub fn finish(self) -> (r: String)
        ensures
            r@ == digest_text(self@),
            r@.len() == 64,
    {
        let raw = self.state.digest();
        to_lower_hex(&raw)
    }
}

/// The digest string of a whole content held in memory.
pub fn digest_bytes(content: &[u8]) -> (r: String)
    ensures
        r@ == digest_text(content@),
        r@.len() == 64,
{
    let mut engine = DigestEngine::new();
    engine.absorb(content);
    assert(engine@ =~= content@);
    engine.finish()
}

/// Equal contents have equal digests, wherever the files stand and however
/// their content was split into chunks when it was fed.
pub proof fn lemma_digest_depends_on_content_only(a: Seq<u8>, b: Seq<u8>)
    requires
        a == b,
    ensures
        digest_text(a) == digest_text(b),
{
}

/// Every digest string consists of lowercase hexadecimal digits only.
pub proof fn lemma_hex_lower_digits(b: Seq<u8>, k: int)
    requires
        0 <= k < hex_lower(b).len(),
    ensures
        hex_lower(b).len() == 2 * b.len(),
        ('0' <= hex_lower(b)[k] <= '9') || ('a' <= hex_lower(b)[k] <= 'f'),
    decreases b.len(),
{
    lemma_hex_lower_len(b);
    if b.len() > 0 {
        let prev = hex_lower(b.drop_last());
        lemma_hex_lower_len(b.drop_last());
        if k < prev.len() {
            lemma_hex_lower_digits(b.drop_last(), k);
        }
    }
}

proof fn lemma_hex_lower_len(b: Seq<u8>)
    ensures
        hex_lower(b).len() == 2 * b.len(),
    decreases b.len(),
{
    if b.len() > 0 {
        lemma_hex_lower_len(b.drop_last());
    }
}

proof fn lemma_hex_digit_injective(x: u8, y: u8)
    requires
        x < 16,
        y < 16,
        hex_digit(x) == hex_digit(y),
    ensures
        x == y,
{
}

/// Hex rendering loses nothing: distinct raw digests give distinct digest
/// strings, so two digest strings are equal only when the raw digests are.
pub proof fn lemma_hex_lower_injective(a: Seq<u8>, b: Seq<u8>)
    requires
        hex_lower(a) == hex_lower(b),
    ensures
        a == b,
    decreases a.len(),
{
    lemma_hex_lower_len(a);
    lemma_hex_lower_len(b);
    if a.len() > 0 {
        let ha = hex_lower(a.drop_last());
        let hb = hex_lower(b.drop_last());
        lemma_hex_lower_len(a.drop_last());
        lemma_hex_lower_len(b.drop_last());
        let n = ha.len() as int;
        let ta = seq![hex_digit(a.last() / 16), hex_digit(a.last() % 16)];
        let tb = seq![hex_digit(b.last() / 16), hex_digit(b.last() % 16)];
        assert(hex_lower(a) == ha + ta);
        assert(hex_lower(b) == hb + tb);
        assert((ha + ta)[n] == ta[0]);
        assert((hb + tb)[n] == tb[0]);
        assert((ha + ta)[n + 1] == ta[1]);
        assert((hb + tb)[n + 1] == tb[1]);
        lemma_hex_digit_injective(a.last() / 16, b.last() / 16);
        lemma_hex_digit_injective(a.last() % 16, b.last() % 16);
        assert(ha =~= hex_lower(a).subrange(0, n));
        assert(hb =~= hex_lower(b).subrange(0, n));
        lemma_hex_lower_injective(a.drop_last(), b.drop_last());
        assert(a =~= a.drop_last().push(a.last()));
        assert(b =~= b.drop_last().push(b.last()));
    }
}

} // verus!
