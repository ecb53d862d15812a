//! The keyboard register. Its value arrives from an external input bridge as
//! a small JSON message (`{"down": bool, "key": number}`); the core keeps the
//! word of the last key pressed and reads all-zero when no key is down.
//! Failure or absence of the bridge never alters core state.

use vstd::prelude::*;

use crate::logic::{bit, Word};
use crate::numeric::bits_of;
use crate::pc::seq_zero16;

verus! {

/// What a key message denotes: whether the key went down or up, and its key
/// code. Parsing a JSON text is a function of the text alone; a text that is
/// not such a message denotes nothing.
pub uninterp spec fn key_event_of(s: Seq<char>) -> Option<(bool, i64)>;

/// Relies on serde_json::from_str and serde_json::Value's accessors `get`,
/// `as_bool` and `as_i64`: reads the `down` and `key` fields of a JSON
/// object, returning nothing when the text is not a JSON object with a
/// boolean `down` and an integer `key`.
#[verifier::external_body]
fn parse_key_event(msg: &str) -> (r: Option<(bool, i64)>)
    ensures
        r == key_event_of(msg@),
{
    let value: serde_json::Value = match serde_json::from_str(msg) {
        Ok(v) => v,
        Err(_) => return None,
    };
    let down = value.get("down")?.as_bool()?;
    let key = value.get("key")?.as_i64()?;
    Some((down, key))
}

/// The keyboard word after one delivered message: no message (or one that is
/// not a key message) leaves the register alone; a key released clears it; a
/// key pressed whose code fits in a word loads the code; any other code is
/// ignored.
pub open spec fn spec_key_apply(cur: Option<Seq<bit>>, ev: Option<(bool, i64)>) -> Option<
    Seq<bit>,
> {
    match ev {
        None => cur,
        Some((down, key)) => if !down {
            None
        } else if 0 <= key < 0x10000 {
            Some(bits_of(key as nat, 16))
        } else {
            cur
        },
    }
}

/// The memory-mapped keyboard register.
pub struct Keyboard {
    pub code: Option<Word>,
}

impl Keyboard {
    /// The held key code, if a key is down.
    pub open spec fn code_view(self) -> Option<Seq<bit>> {
        match self.code {
            None => None,
            Some(w) => Some(w@),
        }
    }

    /// A fresh keyboard holds no key.
    pub fn new() -> (r: Keyboard)
        ensures
            r.code_view() == Option::<Seq<bit>>::None,
    {
        Keyboard { code: None }
    }

    /// Apply the last message delivered by the input bridge, if any.
    pub fn input(&mut self, msg: Option<&str>)
        ensures
            final(self).code_view() == spec_key_apply(
                old(self).code_view(),
                match msg {
                    Some(m) => key_event_of(m@),
                    None => None,
                },
            ),
    {
        if let Some(m) = msg {
            if let Some((down, key)) = parse_key_event(m) {
                if !down {
                    self.code = None;
                } else if 0 <= key && key < 0x10000 {
                    self.code = Some(Word::from_value(key as u16));
                }
            }
        }
    }

    /// Read the keyboard word: the held key code, or all-zero when no key is
    /// down.
    pub fn output(&self) -> (r: Word)
        ensures
            r@ == (match self.code_view() {
                None => seq_zero16(),
                Some(s) => s,
            }),
    {
        match self.code {
            None => {
                let w = Word([bit::O; 16]);
                proof {
                    assert(w@ =~= seq_zero16());
                }
                w
            },
            Some(x) => x,
        }
    }
}

} // verus!
