//! Texture decoding: one payload at a time, and the bookkeeping of the
//! parallel pipeline (how many workers, which worker, and the slots that
//! results land in by the index of their payload).
use crate::codec::{CompressedTexture, Error};
use crate::model::Texture;
use crate::tga::{decode as decode_tga, tga_spec};
use vstd::prelude::*;

verus! {

/// The size and RGBA pixels of a PNG image, or `None` for bytes that are no
/// PNG image.
pub uninterp spec fn png_rgba_of(b: Seq<u8>) -> Option<(u32, u32, Seq<u8>)>;

/// Relies on `image::load_from_memory_with_format` with `ImageFormat::Png`,
/// and `DynamicImage::into_rgba8`: the image's width, height and 8-bit RGBA
/// pixels, or an error for bytes that are no valid PNG image. The result
/// depends on the bytes alone.
#[verifier::external_body]
fn decode_png(data: &[u8]) -> (r: Option<(u32, u32, Vec<u8>)>)
    ensures
        match r {
            Some((w, h, d)) => png_rgba_of(data@) == Some((w, h, d@)),
            None => png_rgba_of(data@) is None,
        },
{
    match image::load_from_memory_with_format(data, image::ImageFormat::Png) {
        Ok(img) => {
            let rgba = img.into_rgba8();
            Some((rgba.width(), rgba.height(), rgba.into_raw()))
        },
        Err(_) => None,
    }
}

impl View for Texture {
    type V = (u32, u32, Seq<u8>);

    open spec fn view(&self) -> (u32, u32, Seq<u8>) {
        match self {
            Texture::Rgba { width, height, data } => (*width, *height, data@),
        }
    }
}

/// What decoding a payload of format tag `t.0` gives.
pub open spec fn decoded_spec(t: (u8, Seq<u8>)) -> Result<(u32, u32, Seq<u8>), Error> {
    if t.0 == 0 {
        match png_rgba_of(t.1) {
            Some(img) => Ok(img),
            None => Err(Error::Format),
        }
    } else if t.0 == 1 {
        tga_spec(t.1)
    } else {
        Err(Error::Unsupported)
    }
}

impl CompressedTexture {
    /// Decodes the payload to RGBA pixels. BC7 is recognised but not
    /// implemented: it fails as unsupported.
    pub fn decode(&self) -> (r: Result<Texture, Error>)
        ensures
            match r {
                Ok(t) => decoded_spec(self@) == Ok::<_, Error>(t@),
                Err(e) => decoded_spec(self@) == Err::<(u32, u32, Seq<u8>), _>(e),
            },
    {
        match self {
            CompressedTexture::Png(data) => match decode_png(data.as_slice()) {
                Some((width, height, data)) => Ok(Texture::Rgba { width, height, data }),
                None => Err(Error::Format),
            },
            CompressedTexture::Tga(data) => match decode_tga(data.as_slice()) {
                Ok((width, height, data)) => Ok(Texture::Rgba { width, height, data }),
                Err(e) => Err(e),
            },
            CompressedTexture::Bc7(_) => Err(Error::Unsupported),
        }
    }
}

/// How many workers decode `textures` payloads when the machine offers
/// `available` parallel threads: one less than that (but at least one), and
/// never more than there are payloads.
pub fn worker_count(available: usize, textures: usize) -> (r: usize)
    ensures
        r == if available > 1 {
            if available - 1 > textures {
                textures as int
            } else {
                available - 1
            }
        } else {
            if available > textures {
                textures as int
            } else {
                available as int
            }
        },
{
    let mut n = available;
    if n > 1 {
        n = n - 1;
    }
    if n > textures {
        n = textures;
    }
    n
}

/// The worker that payload `index` goes to: payloads are dealt round-robin.
pub fn worker_of(index: usize, workers: usize) -> (r: usize)
    requires
        workers > 0,
    ensures
        r == index % workers,
        r < workers,
{
    index % workers
}

/// Where decoded textures land: one slot per payload, filled by index in
/// whatever order the results arrive.
pub struct TextureSlots {
    pub slots: Vec<Option<Texture>>,
}

/// The slots after results `arrivals` (payload index, result) land, in
/// order, in `slots`.
pub open spec fn place_all<A>(slots: Seq<Option<A>>, arrivals: Seq<(int, A)>) -> Seq<Option<A>>
    decreases arrivals.len(),
{
    if arrivals.len() == 0 {
        slots
    } else {
        let last = arrivals.last();
        place_all(slots, arrivals.drop_last()).update(last.0, Some(last.1))
    }
}

/// Results that arrive each once, with distinct indices below `n`, in any
/// order, land each in the slot of its own index.
pub proof fn lemma_slots_by_index<A>(n: nat, arrivals: Seq<(int, A)>)
    requires
        forall|k: int| 0 <= k < arrivals.len() ==> 0 <= #[trigger] arrivals[k].0 < n,
        forall|k: int, m: int|
            0 <= k < m < arrivals.len() ==> arrivals[k].0 != arrivals[m].0,
    ensures
        place_all(Seq::new(n, |i: int| None::<A>), arrivals).len() == n,
        forall|k: int|
            0 <= k < arrivals.len() ==> place_all(Seq::new(n, |i: int| None::<A>), arrivals)[#[trigger] arrivals[k].0]
                == Some(arrivals[k].1),
    decreases arrivals.len(),
{
    let empty = Seq::new(n, |i: int| None::<A>);
    if arrivals.len() > 0 {
        let prev = arrivals.drop_last();
        lemma_slots_by_index(n, prev);
        assert forall|k: int| 0 <= k < arrivals.len() implies place_all(empty, arrivals)[
            #[trigger] arrivals[k].0] == Some(arrivals[k].1) by {
            if k < arrivals.len() - 1 {
                assert(prev[k] == arrivals[k]);
                assert(arrivals[k].0 != arrivals.last().0);
            }
        }
    }
}

impl TextureSlots {
    /// `n` empty slots.
    pub fn new(n: usize) -> (r: TextureSlots)
        ensures
            r.slots@ == Seq::new(n as nat, |i: int| None::<Texture>),
    {
        let mut slots: Vec<Option<Texture>> = Vec::with_capacity(n);
        let mut i: usize = 0;
        while i < n
            invariant
                i <= n,
                slots@ == Seq::new(i as nat, |k: int| None::<Texture>),
            decreases n - i,
        {
            slots.push(None);
            i = i + 1;
            proof {
                assert(slots@ =~= Seq::new(i as nat, |k: int| None::<Texture>));
            }
        }
        TextureSlots { slots }
    }

    /// Puts the result for payload `index` in its slot; `false`, changing
    /// nothing, for an index with no slot.
    pub fn place(&mut self, index: usize, texture: Texture) -> (ok: bool)
        ensures
            ok == (index < old(self).slots@.len()),
            ok ==> final(self).slots@ == old(self).slots@.update(index as int, Some(texture)),
            !ok ==> final(self).slots@ == old(self).slots@,
    {
        if index >= self.slots.len() {
            return false;
        }
        self.slots.set(index, Some(texture));
        true
    }

    /// The textures in slot order, once every slot is filled.
    pub fn finish(self) -> (r: Option<Vec<Texture>>)
        ensures
            r is Some <==> forall|i: int| 0 <= i < self.slots@.len() ==> self.slots@[i] is Some,
            r matches Some(v) ==> v@.len() == self.slots@.len() && forall|i: int|
                0 <= i < v@.len() ==> self.slots@[i] == Some(#[trigger] v@[i]),
    {
        let mut slots = self.slots;
        let ghost all = slots@;
        let mut out: Vec<Texture> = Vec::new();
        // Taken from the back, so that each move is a pop.
        while slots.len() > 0
            invariant
                all == self.slots@,
                slots@ == all.take(slots@.len() as int),
                slots@.len() <= all.len(),
                out@.len() + slots@.len() == all.len(),
                forall|i: int| 0 <= i < out@.len() ==> all[all.len() - 1 - i] == Some(#[trigger] out@[i]),
            decreases slots@.len(),
        {
            let last = slots.pop();
            proof {
                assert(slots@ =~= all.take(slots@.len() as int));
            }
            match last {
                Some(Some(t)) => out.push(t),
                _ => {
                    proof {
                        assert(all[slots@.len() as int] is None);
                    }
                    return None;
                },
            }
        }
        let mut r: Vec<Texture> = Vec::new();
        let ghost rev = out@;
        while out.len() > 0
            invariant
                all == self.slots@,
                out@ == rev.take(out@.len() as int),
                out@.len() <= rev.len(),
                rev.len() == all.len(),
                r@.len() + out@.len() == rev.len(),
                forall|i: int| 0 <= i < rev.len() ==> all[all.len() - 1 - i] == Some(#[trigger] rev[i]),
                forall|i: int| 0 <= i < r@.len() ==> #[trigger] r@[i] == rev[rev.len() - 1 - i],
            decreases out@.len(),
        {
            let t = out.pop();
            proof {
                assert(out@ =~= rev.take(out@.len() as int));
            }
            match t {
                Some(t) => r.push(t),
                None => {},
            }
        }
        proof {
            assert forall|i: int| 0 <= i < r@.len() implies all[i] == Some(#[trigger] r@[i]) by {
                assert(r@[i] == rev[rev.len() - 1 - i]);
                assert(all[all.len() - 1 - (rev.len() - 1 - i)] == Some(rev[rev.len() - 1 - i]));
            }
            assert forall|i: int| 0 <= i < all.len() implies all[i] is Some by {
                assert(all[i] == Some(r@[i]));
            }
        }
        Some(r)
    }
}

/// A format that textures can be encoded to.
#[derive(Debug, Clone, Copy, PartialEq, Eq, Structural)]
pub enum ImageFormat {
    Png,
    Tga,
}

/// The bytes of an RGBA image of `width` by `height` pixels in the format of
/// tag `tag` (0 for PNG, 1 for TGA), or `None` where the encoder fails.
pub uninterp spec fn encoded_of(tag: u8, width: u32, height: u32, data: Seq<u8>) -> Option<Seq<u8>>;

/// Relies on `image::write_buffer_with_format` with `ColorType::Rgba8`: the
/// encoded image, or an error from the encoder. Its encoders assert that
/// the buffer holds exactly four bytes per pixel, which `requires` states.
#[verifier::external_body]
fn encode_rgba(format: ImageFormat, width: u32, height: u32, data: &[u8]) -> (r: Option<Vec<u8>>)
    requires
        data@.len() == width * height * 4,
    ensures
        match r {
            Some(b) => encoded_of(if format == ImageFormat::Png { 0u8 } else { 1u8 }, width, height, data@) == Some(b@),
            None => encoded_of(if format == ImageFormat::Png { 0u8 } else { 1u8 }, width, height, data@) is None,
        },
{
    let target = match format {
        ImageFormat::Png => image::ImageFormat::Png,
        ImageFormat::Tga => image::ImageFormat::Tga,
    };
    let mut buf = std::io::Cursor::new(Vec::new());
    match image::write_buffer_with_format(&mut buf, data, width, height, image::ColorType::Rgba8, target) {
        Ok(()) => Some(buf.into_inner()),
        Err(_) => None,
    }
}

impl Texture {
    /// The texture encoded in `format`, tagged accordingly; `None` where the
    /// encoder fails.
    pub fn encode(&self, format: ImageFormat) -> (r: Option<CompressedTexture>)
        requires
            self@.2.len() == self@.0 * self@.1 * 4,
        ensures
            match r {
                Some(c) => {
                    let tag: u8 = if format == ImageFormat::Png { 0 } else { 1 };
                    &&& c@.0 == tag
                    &&& encoded_of(tag, self@.0, self@.1, self@.2) == Some(c@.1)
                },
                None => encoded_of(if format == ImageFormat::Png { 0u8 } else { 1u8 }, self@.0, self@.1, self@.2) is None,
            },
    {
        match self {
            Texture::Rgba { width, height, data } => match encode_rgba(format, *width, *height, data.as_slice()) {
                Some(bytes) => match format {
                    ImageFormat::Png => Some(CompressedTexture::Png(bytes)),
                    ImageFormat::Tga => Some(CompressedTexture::Tga(bytes)),
                },
                None => None,
            },
        }
    }
}

} // verus!
