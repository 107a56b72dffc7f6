//! Names of textures and the archive entries that may hold their images.

use vstd::prelude::*;
use vstd::string::StringExecFns;
use crate::bsp_look_up::{look_up_table, replacement};
use crate::geometry::{Effect, Texture};

verus! {

/// The format of an image file.
#[derive(Clone, Copy, Debug, PartialEq, Eq, Structural)]
pub enum ImageKind {
    Jpeg,
    Tga,
}

/// An archive entry that may hold the image of a texture.
#[derive(Debug)]
pub struct Candidate {
    pub path: String,
    pub kind: ImageKind,
}

/// The bytes among the first `n` of `s` that are not zero, in order.
pub open spec fn nonzero(s: Seq<u8>, n: int) -> Seq<u8>
    decreases n,
{
    if n <= 0 {
        Seq::empty()
    } else if s[n - 1] == 0 {
        nonzero(s, n - 1)
    } else {
        nonzero(s, n - 1).push(s[n - 1])
    }
}

/// A name without the zero bytes that pad it.
fn trim_name(name: &[u8; 64]) -> (r: Vec<u8>)
    ensures
        r@ == nonzero(name@, 64),
{
    let mut out: Vec<u8> = Vec::new();
    let mut i: usize = 0;
    while i < 64
        invariant
            i <= 64,
            out@ == nonzero(name@, i as int),
        decreases 64 - i,
    {
        if name[i] != 0 {
            out.push(name[i]);
        }
        i = i + 1;
    }
    out
}

impl Texture {
    /// The name of the texture, without the zero bytes that pad it.
    pub fn name_bytes(&self) -> (r: Vec<u8>)
        ensures
            r@ == nonzero(self.name@, 64),
    {
        trim_name(&self.name)
    }
}

impl Effect {
    /// The name of the effect, without the zero bytes that pad it.
    pub fn name_bytes(&self) -> (r: Vec<u8>)
        ensures
            r@ == nonzero(self.name@, 64),
    {
        trim_name(&self.name)
    }
}

/// The archive entries to try for the image of a texture, in this order:
/// the name as a JPEG, the name as a TGA, then the replacement of the name
/// as a JPEG and as a TGA.
pub fn texture_candidates(name: &str) -> (r: Vec<Candidate>)
    ensures
        r@.len() == 4,
        r@[0].path@ == name@ + ".jpg"@,
        r@[0].kind == ImageKind::Jpeg,
        r@[1].path@ == name@ + ".tga"@,
        r@[1].kind == ImageKind::Tga,
        r@[2].path@ == replacement(name@) + ".jpg"@,
        r@[2].kind == ImageKind::Jpeg,
        r@[3].path@ == replacement(name@) + ".tga"@,
        r@[3].kind == ImageKind::Tga,
{
    let other: String = look_up_table(name);
    let mut out: Vec<Candidate> = Vec::new();
    out.push(Candidate { path: String::from_str(name).concat(".jpg"), kind: ImageKind::Jpeg });
    out.push(Candidate { path: String::from_str(name).concat(".tga"), kind: ImageKind::Tga });
    out.push(
        Candidate { path: String::from_str(other.as_str()).concat(".jpg"), kind: ImageKind::Jpeg },
    );
    out.push(Candidate { path: other.concat(".tga"), kind: ImageKind::Tga });
    out
}

} // verus!
