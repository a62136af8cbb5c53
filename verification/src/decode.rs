//! Scancode decoding for the keystroke task.
//!
//! The scancode-to-key decoding tables are an external collaborator: the
//! stateful decoder of the `pc_keyboard` crate turns raw set-1 scancodes
//! into key events and decoded keys. This module drives it one byte at a
//! time; decode errors and partial multi-byte sequences are silently
//! skipped, which is the accepted input-loss tolerance.
//!
//! The decoder is a deterministic state machine: its state is a function of
//! the interactions performed on it. The contracts name that interaction
//! history and state each step's result as a function of it, so the verified
//! step function is pinned to exactly one behaviour per history.

use vstd::prelude::*;

verus! {

#[verifier::external_type_specification]
#[verifier::external_body]
pub struct ExKeyEvent(pc_keyboard::KeyEvent);

#[verifier::external_type_specification]
#[verifier::external_body]
pub struct ExDecodedKey(pc_keyboard::DecodedKey);

#[verifier::external_type_specification]
#[verifier::external_body]
pub struct ExPcKeyboardError(pc_keyboard::Error);

/// One interaction with the stateful decoder: a raw scancode fed to it, or a
/// completed key event handed back to it for modifier tracking.
pub enum DecoderOp {
    Fed(u8),
    Processed(pc_keyboard::KeyEvent),
}

/// The stateful scancode decoder, held opaquely: Verus refuses to declare
/// the decoder type itself, whose generics carry bounds on traits of its
/// crate, so this struct hides the one concrete instantiation the kernel
/// uses behind trusted accessors.
#[verifier::external_body]
pub struct KeyboardDecoder {
    inner: pc_keyboard::Keyboard<pc_keyboard::layouts::Us104Key, pc_keyboard::ScancodeSet1>,
}

/// The interactions performed on this decoder so far, oldest first. The
/// decoder is deterministic, so this history determines its state.
pub uninterp spec fn decoder_history(k: KeyboardDecoder) -> Seq<DecoderOp>;

/// What pc_keyboard::Keyboard::add_byte returns on a decoder with the given
/// history: a completed key event, nothing for a partial multi-byte
/// sequence, or a decode error. A name, since the decoding tables take pages
/// to state; the result depends on the history and the byte alone.
pub uninterp spec fn add_byte_result(history: Seq<DecoderOp>, byte: u8) -> Result<
    Option<pc_keyboard::KeyEvent>,
    pc_keyboard::Error,
>;

/// What pc_keyboard::Keyboard::process_keyevent returns on a decoder with
/// the given history: the decoded key, or nothing for releases and bare
/// modifiers. A name for the same reason as `add_byte_result`.
pub uninterp spec fn process_keyevent_result(
    history: Seq<DecoderOp>,
    event: pc_keyboard::KeyEvent,
) -> Option<pc_keyboard::DecodedKey>;

/// Relies on pc_keyboard::Keyboard::new: a fresh decoder for scancode set 1
/// and the US 104-key layout, ignoring the control-character mapping.
#[verifier::external_body]
pub fn new_keyboard() -> (k: KeyboardDecoder)
    ensures
        decoder_history(k) == Seq::<DecoderOp>::empty(),
{
    KeyboardDecoder {
        inner: pc_keyboard::Keyboard::new(
            pc_keyboard::ScancodeSet1::new(),
            pc_keyboard::layouts::Us104Key,
            pc_keyboard::HandleControl::Ignore,
        ),
    }
}

/// Relies on pc_keyboard::Keyboard::add_byte: advances the decoder state by
/// one raw scancode, deterministically in the decoder's history, and returns
/// a completed key event, nothing yet for a partial multi-byte sequence, or
/// a decode error.
#[verifier::external_body]
fn keyboard_add_byte(kb: &mut KeyboardDecoder, byte: u8) -> (r: Result<
    Option<pc_keyboard::KeyEvent>,
    pc_keyboard::Error,
>)
    ensures
        decoder_history(*final(kb)) == decoder_history(*old(kb)).push(DecoderOp::Fed(byte)),
        r == add_byte_result(decoder_history(*old(kb)), byte),
{
    kb.inner.add_byte(byte)
}

/// Relies on pc_keyboard::Keyboard::process_keyevent: turns a key event into
/// a decoded key, deterministically in the decoder's history, tracking
/// modifier state; events that decode to nothing (releases, bare modifiers)
/// give nothing.
#[verifier::external_body]
fn keyboard_process_keyevent(kb: &mut KeyboardDecoder, ev: pc_keyboard::KeyEvent) -> (r: Option<
    pc_keyboard::DecodedKey,
>)
    ensures
        decoder_history(*final(kb)) == decoder_history(*old(kb)).push(DecoderOp::Processed(ev)),
        r == process_keyevent_result(decoder_history(*old(kb)), ev),
{
    kb.inner.process_keyevent(ev)
}

/// The completed key event of one decoding step, if there is one: errors and
/// partial sequences yield nothing and are thereby skipped.
pub fn key_event_of(r: Result<Option<pc_keyboard::KeyEvent>, pc_keyboard::Error>) -> (res: Option<
    pc_keyboard::KeyEvent,
>)
    ensures
        (r matches Ok(ev) ==> res == ev),
        (r is Err ==> res is None),
{
    match r {
        Ok(ev) => ev,
        Err(_) => None,
    }
}

/// The decoder history after one scancode step: the byte is fed, and a key
/// event completed by it is processed at once; errors and partial sequences
/// complete nothing.
pub open spec fn scancode_step_history(history: Seq<DecoderOp>, scancode: u8) -> Seq<DecoderOp> {
    let fed = history.push(DecoderOp::Fed(scancode));
    match add_byte_result(history, scancode) {
        Ok(completed) => match completed {
            Some(ev) => fed.push(DecoderOp::Processed(ev)),
            None => fed,
        },
        Err(_) => fed,
    }
}

/// The decoded key one scancode step reports: the decoded form of the key
/// event the byte completed, and nothing when the byte decodes with an error
/// or only extends a partial multi-byte sequence.
pub open spec fn scancode_step_result(history: Seq<DecoderOp>, scancode: u8) -> Option<
    pc_keyboard::DecodedKey,
> {
    match add_byte_result(history, scancode) {
        Ok(completed) => match completed {
            Some(ev) => process_keyevent_result(history.push(DecoderOp::Fed(scancode)), ev),
            None => None,
        },
        Err(_) => None,
    }
}

/// One step of the keystroke task: feeds a raw scancode to the stateful
/// decoder and reports the decoded key, if this byte completed one. Decode
/// errors and partial multi-byte sequences are skipped silently, leaving the
/// decoder ready for the bytes that follow.
pub fn process_scancode(keyboard: &mut KeyboardDecoder, scancode: u8) -> (r: Option<
    pc_keyboard::DecodedKey,
>)
    ensures
        decoder_history(*final(keyboard)) == scancode_step_history(
            decoder_history(*old(keyboard)),
            scancode,
        ),
        r == scancode_step_result(decoder_history(*old(keyboard)), scancode),
{
    let step = keyboard_add_byte(keyboard, scancode);
    match key_event_of(step) {
        Some(key_event) => keyboard_process_keyevent(keyboard, key_event),
        None => None,
    }
}

} // verus!
