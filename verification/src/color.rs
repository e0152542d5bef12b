//! The colour of an agent, derived from its session identifier alone, so
//! that a session looks the same whenever it is seen again.

use vstd::prelude::*;
use vstd::std_specs::hash::DefaultHasherAdditionalSpecFns;
use vstd::string::StringSliceAdditionalSpecFns;
use vstd::utf8::encode_utf8;
use std::collections::hash_map::DefaultHasher;
use std::hash::Hasher;

verus! {

/// A colour by hue, saturation and lightness: the hue in degrees, the other
/// two in percent.
#[derive(Debug, Clone, Copy, PartialEq, Eq, Structural)]
pub struct AgentColor {
    pub hue: u16,
    pub saturation: u8,
    pub lightness: u8,
}

/// The hash of a session identifier: what the standard library's default
/// hasher gives after the identifier's bytes and one closing byte `0xff`.
pub open spec fn session_hash(session_id: Seq<char>) -> u64 {
    DefaultHasher::spec_finish(seq![encode_utf8(session_id), seq![0xffu8]])
}

/// The colour that a hash selects: the hue is the hash modulo 360, the
/// saturation lies in 70 to 99 percent and the lightness in 60 to 79 percent,
/// each taken from a higher byte of the hash.
pub open spec fn color_of_hash(hash: u64) -> AgentColor {
    AgentColor {
        hue: (hash % 360) as u16,
        saturation: (70 + (hash >> 8) % 30) as u8,
        lightness: (60 + (hash >> 16) % 20) as u8,
    }
}

/// The hash of a session identifier.
pub fn hash_session_id(session_id: &str) -> (hash: u64)
    ensures
        hash == session_hash(session_id@),
{
    let mut hasher = DefaultHasher::new();
    hasher.write(session_id.as_bytes());
    let mut closing: Vec<u8> = Vec::new();
    closing.push(0xffu8);
    hasher.write(closing.as_slice());
    assert(hasher@ =~= seq![encode_utf8(session_id@), seq![0xffu8]]);
    hasher.finish()
}

/// The colour that `hash` selects.
pub fn color_from_hash(hash: u64) -> (color: AgentColor)
    ensures
        color == color_of_hash(hash),
        color.hue < 360,
        70 <= color.saturation < 100,
        60 <= color.lightness < 80,
{
    let hue: u16 = (hash % 360) as u16;
    let saturation: u8 = (70 + (hash >> 8) % 30) as u8;
    let lightness: u8 = (60 + (hash >> 16) % 20) as u8;
    AgentColor { hue, saturation, lightness }
}

/// The colour of the agent of a session. It depends on the identifier alone:
/// equal identifiers give equal colours.
pub fn generate_agent_color(session_id: &str) -> (color: AgentColor)
    ensures
        color == color_of_hash(session_hash(session_id@)),
        color.hue < 360,
        70 <= color.saturation < 100,
        60 <= color.lightness < 80,
{
    color_from_hash(hash_session_id(session_id))
}

} // verus!
