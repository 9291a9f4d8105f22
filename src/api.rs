use vstd::prelude::*;

use crate::util::{hi_word, join_words, lemma_join_split, lo_word};

verus! {

/// Relies on std::io::Error: carried through as an opaque value.
#[verifier::external_type_specification]
#[verifier::external_body]
pub struct ExIoError(std::io::Error);

/// What can go wrong talking to a peer.
#[derive(Debug)]
pub enum Error {
    /// A transport failure: connect, read, write, or a receive that timed out.
    IO(std::io::Error),
    /// A failure of the application protocol, with a message.
    App(String),
    /// Anything else, with a message.
    Other(String),
}

impl From<std::io::Error> for Error {
    fn from(e: std::io::Error) -> (r: Self)
        ensures
            r == Error::IO(e),
    {
        Error::IO(e)
    }
}

impl vstd::std_specs::convert::FromSpecImpl<std::io::Error> for Error {
    open spec fn obeys_from_spec() -> bool {
        true
    }

    open spec fn from_spec(e: std::io::Error) -> Error {
        Error::IO(e)
    }
}

pub type Result<T> = std::result::Result<T, Error>;

/// A channel that carries values of type `T` to a peer.
pub trait Sender<T: 'static>: Sized {
    fn send(&self, msg: &T) -> Result<()>;
}

pub const TAG_SECRET_SHARE: u32 = 1;
pub const TAG_PUBLIC_KEY: u32 = 2;
pub const TAG_REFRESH: u32 = 3;

pub const TAG_HELLO: u32 = 255;

pub const TAG_OK: u32 = 200;
pub const TAG_BAD_REQUEST: u32 = 400;
pub const TAG_SERVER_ERROR: u32 = 500;

pub const ERR_NOT_FOUND: u32 = 32001;
pub const ERR_EXPIRED: u32 = 32002;

/// How many times a receive with a timeout looks for a value.
pub const RECV_ATTEMPTS: u32 = 3;

/// What a receive with a timeout does after an attempt that found nothing.
#[derive(Clone, Copy, Debug, PartialEq, Eq, Structural)]
pub enum Poll {
    /// Sleep half the timeout, then try again.
    Wait,
    /// Report a timeout.
    GiveUp,
}

/// The step after `tried` attempts that all found nothing: two waits of half
/// the timeout each between three attempts, then a timeout.
pub fn after_empty(tried: u32) -> (r: Poll)
    ensures
        r == (if tried < RECV_ATTEMPTS { Poll::Wait } else { Poll::GiveUp }),
{
    if tried < RECV_ATTEMPTS {
        Poll::Wait
    } else {
        Poll::GiveUp
    }
}

/// The mask of a connection: its session key, or 0 before one is agreed.
pub open spec fn mask_of(key: Option<u32>) -> u32 {
    match key {
        Some(k) => k,
        None => 0,
    }
}

/// The four bytes of `x`, most significant first.
pub open spec fn be_bytes(x: u32) -> Seq<u8> {
    seq![
        (x / 0x100_0000) as u8,
        (x / 0x1_0000 % 0x100) as u8,
        (x / 0x100 % 0x100) as u8,
        (x % 0x100) as u8,
    ]
}

/// The value of four bytes, most significant first.
pub open spec fn be_value(b: Seq<u8>) -> u32 {
    (b[0] as int * 0x100_0000 + b[1] as int * 0x1_0000 + b[2] as int * 0x100 + b[3] as int) as u32
}

/// The bytes that carry `word` over a connection with session key `key`:
/// the word XOR the mask, most significant byte first.
pub fn encode_word(word: u32, key: Option<u32>) -> (r: [u8; 4])
    ensures
        r@ == be_bytes(word ^ mask_of(key)),
{
    let mask: u32 = match key {
        Some(k) => k,
        None => 0,
    };
    let x = word ^ mask;
    let r = [(x >> 24u32) as u8, (x >> 16u32) as u8, (x >> 8u32) as u8, x as u8];
    assert((x >> 24u32) as u8 == (x / 0x100_0000) as u8) by (bit_vector);
    assert((x >> 16u32) as u8 == (x / 0x1_0000 % 0x100) as u8) by (bit_vector);
    assert((x >> 8u32) as u8 == (x / 0x100 % 0x100) as u8) by (bit_vector);
    assert(x as u8 == (x % 0x100) as u8) by (bit_vector);
    assert(r@ =~= be_bytes(x));
    r
}

/// The word that four bytes read from a connection with session key `key`
/// carry: their value XOR the mask.
pub fn decode_word(bytes: [u8; 4], key: Option<u32>) -> (r: u32)
    ensures
        r == be_value(bytes@) ^ mask_of(key),
{
    let mask: u32 = match key {
        Some(k) => k,
        None => 0,
    };
    let b0 = bytes[0] as u32;
    let b1 = bytes[1] as u32;
    let b2 = bytes[2] as u32;
    let b3 = bytes[3] as u32;
    assert(b0 < 0x100 && b1 < 0x100 && b2 < 0x100 && b3 < 0x100 ==> (b0 << 24u32) | (b1 << 16u32) | (
    b2 << 8u32) | b3 == b0 * 0x100_0000 + b1 * 0x1_0000 + b2 * 0x100 + b3) by (bit_vector);
    let x = (b0 << 24u32) | (b1 << 16u32) | (b2 << 8u32) | b3;
    x ^ mask
}

/// Bytes written with a session key and read back with the same key give
/// the word that was written.
pub proof fn lemma_word_round_trip(word: u32, key: Option<u32>)
    ensures
        be_value(be_bytes(word ^ mask_of(key))) ^ mask_of(key) == word,
{
    let m = mask_of(key);
    let x = word ^ m;
    assert((x ^ m) == word) by (bit_vector)
        requires
            x == word ^ m,
    ;
}

/// One message of the wire protocol.
#[derive(Clone, Copy, Debug, PartialEq, Eq, Structural)]
pub struct Frame {
    pub idx: u32,
    pub tag: u32,
    pub msg: u32,
    pub key: u32,
    pub sig: u64,
    pub ext: u32,
    pub sum: u32,
}

/// The eight words of a frame in wire order, `sig` as (high, low).
pub open spec fn words_of(f: Frame) -> Seq<u32> {
    seq![f.idx, f.tag, f.msg, f.key, hi_word(f.sig), lo_word(f.sig), f.ext, f.sum]
}

/// The frame that eight words in wire order stand for.
pub open spec fn frame_of(w: Seq<u32>) -> Frame {
    Frame {
        idx: w[0],
        tag: w[1],
        msg: w[2],
        key: w[3],
        sig: join_words(w[4], w[5]),
        ext: w[6],
        sum: w[7],
    }
}

impl Frame {
    /// The frame as eight words in wire order.
    pub fn words(&self) -> (r: [u32; 8])
        ensures
            r@ == words_of(*self),
    {
        let (hi, lo) = crate::util::split(self.sig);
        let r = [self.idx, self.tag, self.msg, self.key, hi, lo, self.ext, self.sum];
        assert(r@ =~= words_of(*self));
        r
    }

    /// The frame that eight words in wire order stand for.
    pub fn from(words: [u32; 8]) -> (r: Self)
        ensures
            r == frame_of(words@),
    {
        Frame {
            idx: words[0],
            tag: words[1],
            msg: words[2],
            key: words[3],
            sig: crate::util::merge(words[4], words[5]),
            ext: words[6],
            sum: words[7],
        }
    }
}

/// Reading back the words of a frame gives the same frame.
pub proof fn lemma_frame_round_trip(f: Frame)
    ensures
        frame_of(words_of(f)) == f,
{
    lemma_join_split(f.sig);
}

} // verus!
