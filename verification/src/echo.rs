//! The echo: bytes are collected four at a time, and a word of four that is
//! well-formed text is handed out.

use vstd::prelude::*;

verus! {

/// How many bytes make up a word.
pub const WORD_LEN: usize = 4;

/// Whether the bytes are well-formed UTF-8.
pub uninterp spec fn is_utf8(bytes: Seq<u8>) -> bool;

/// `core::str::from_utf8`. Trusted: the call succeeds on well-formed UTF-8 and
/// on nothing else.
#[verifier::external_body]
fn utf8_valid(bytes: &[u8]) -> (ok: bool)
    ensures
        ok == is_utf8(bytes@),
{
    core::str::from_utf8(bytes).is_ok()
}

/// The bytes of the word that is being collected.
pub struct EchoBuffer {
    bytes: Vec<u8>,
}

/// The lamp that a raw byte asks for: 1 is on, 0 is off, anything else is
/// noise.
pub open spec fn raw_switch_of(d: u8) -> Option<bool> {
    if d == 1 {
        Some(true)
    } else if d == 0 {
        Some(false)
    } else {
        None
    }
}

impl EchoBuffer {
    /// The bytes collected so far.
    pub closed spec fn view(&self) -> Seq<u8> {
        self.bytes@
    }

    /// A buffer that holds nothing.
    pub fn new() -> (r: EchoBuffer)
        ensures
            r@ == Seq::<u8>::empty(),
    {
        EchoBuffer { bytes: Vec::new() }
    }

    /// How many bytes are collected.
    pub fn len(&self) -> (n: usize)
        ensures
            n == self@.len(),
    {
        self.bytes.len()
    }
}

/// The serial receiver has one byte, which the caller also writes back. The
/// byte joins the word. A fourth byte closes the word: where the four bytes
/// are well-formed text the word is handed out, and either way a new word
/// starts. A buffer that is full already is emptied, and the byte is gone.
pub fn interupting(echo: &mut EchoBuffer, d: u8) -> (word: Option<Vec<u8>>)
    ensures
        ({
            let all = old(echo)@.push(d);
            if old(echo)@.len() >= WORD_LEN {
                &&& word is None
                &&& final(echo)@ == Seq::<u8>::empty()
            } else if all.len() == WORD_LEN && is_utf8(all) {
                &&& word matches Some(w)
                &&& w@ == all
                &&& final(echo)@ == Seq::<u8>::empty()
            } else if all.len() == WORD_LEN {
                &&& word is None
                &&& final(echo)@ == Seq::<u8>::empty()
            } else {
                &&& word is None
                &&& final(echo)@ == all
            }
        }),
        final(echo)@.len() < WORD_LEN,
{
    if echo.bytes.len() >= WORD_LEN {
        echo.bytes.clear();
        return None;
    }
    echo.bytes.push(d);
    if echo.bytes.len() < WORD_LEN {
        return None;
    }
    let mut word: Vec<u8> = Vec::new();
    core::mem::swap(&mut word, &mut echo.bytes);
    if utf8_valid(word.as_slice()) {
        Some(word)
    } else {
        None
    }
}

/// The lamp that a raw byte asks for.
pub fn raw_switch(d: u8) -> (lamp: Option<bool>)
    ensures
        lamp == raw_switch_of(d),
{
    if d == 1 {
        Some(true)
    } else if d == 0 {
        Some(false)
    } else {
        None
    }
}

/// The lamp that a raw byte sets where noise switches it off: 1 is on,
/// everything else is off.
pub fn raw_lamp(d: u8) -> (lit: bool)
    ensures
        lit == (d == 1),
{
    d == 1
}

} // verus!
