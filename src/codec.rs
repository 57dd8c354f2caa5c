//! Binary framing of a puppet file: the rig descriptor and the texture section.
//!
//! Layout: the magic `TRNSRTS\0`, a big-endian `u32` length, the JSON rig
//! descriptor, the magic `TEX_SECT`, a big-endian `u32` texture count, then for
//! each texture a big-endian `u32` payload length, a one-byte format tag
//! (0 = PNG, 1 = TGA, 2 = BC7) and the payload bytes.
use vstd::prelude::*;

verus! {

/// Errors of loading a puppet.
#[derive(Debug, Clone, Copy, PartialEq, Eq, Structural)]
pub enum Error {
    /// A magic number does not match, or a texture tag is unknown.
    Format,
    /// Fewer bytes remain than a length field demands.
    Truncated,
    /// The rig descriptor has missing, extra or mistyped fields.
    Schema,
    /// The data asks for a feature that is not implemented (BC7 decoding).
    Unsupported,
}

/// A texture payload as stored in the file, tagged by its format.
#[derive(Debug, Clone, PartialEq, Eq)]
pub enum CompressedTexture {
    Png(Vec<u8>),
    Tga(Vec<u8>),
    Bc7(Vec<u8>),
}

impl View for CompressedTexture {
    type V = (u8, Seq<u8>);

    /// The format tag and the payload bytes.
    open spec fn view(&self) -> (u8, Seq<u8>) {
        match self {
            CompressedTexture::Png(d) => (0u8, d@),
            CompressedTexture::Tga(d) => (1u8, d@),
            CompressedTexture::Bc7(d) => (2u8, d@),
        }
    }
}

/// A parsed container: the raw rig descriptor and the texture payloads, in
/// file order (a texture's position is the index that parts refer to).
#[derive(Debug, Clone)]
pub struct Container {
    pub descriptor: Vec<u8>,
    pub textures: Vec<CompressedTexture>,
}

impl View for Container {
    type V = (Seq<u8>, Seq<(u8, Seq<u8>)>);

    open spec fn view(&self) -> (Seq<u8>, Seq<(u8, Seq<u8>)>) {
        (self.descriptor@, self.textures@.map_values(|t: CompressedTexture| t@))
    }
}

pub open spec fn puppet_magic() -> Seq<u8> {
    seq![84u8, 82u8, 78u8, 83u8, 82u8, 84u8, 83u8, 0u8]
}

pub open spec fn texture_magic() -> Seq<u8> {
    seq![84u8, 69u8, 88u8, 95u8, 83u8, 69u8, 67u8, 84u8]
}

/// The big-endian encoding of `v`.
pub open spec fn be32(v: u32) -> Seq<u8> {
    seq![(v >> 24u32) as u8, (v >> 16u32) as u8, (v >> 8u32) as u8, v as u8]
}

/// The value of four big-endian bytes.
pub open spec fn be32_value(b: Seq<u8>) -> u32
    recommends
        b.len() >= 4,
{
    ((b[0] as u32) << 24u32) | ((b[1] as u32) << 16u32) | ((b[2] as u32) << 8u32) | (b[3] as u32)
}

/// Whether a texture can be written: a known tag and a length that fits a `u32`.
pub open spec fn texture_encodable(t: (u8, Seq<u8>)) -> bool {
    t.0 <= 2 && t.1.len() <= u32::MAX
}

pub open spec fn texture_bytes(t: (u8, Seq<u8>)) -> Seq<u8> {
    be32(t.1.len() as u32) + seq![t.0] + t.1
}

pub open spec fn textures_bytes(ts: Seq<(u8, Seq<u8>)>) -> Seq<u8>
    decreases ts.len(),
{
    if ts.len() == 0 {
        Seq::empty()
    } else {
        texture_bytes(ts[0]) + textures_bytes(ts.skip(1))
    }
}

/// Whether a container can be written: every length fits its `u32` field.
pub open spec fn container_encodable(c: (Seq<u8>, Seq<(u8, Seq<u8>)>)) -> bool {
    &&& c.0.len() <= u32::MAX
    &&& c.1.len() <= u32::MAX
    &&& forall|i: int| 0 <= i < c.1.len() ==> texture_encodable(#[trigger] c.1[i])
}

/// The bytes of a container.
pub open spec fn container_bytes(c: (Seq<u8>, Seq<(u8, Seq<u8>)>)) -> Seq<u8> {
    puppet_magic() + be32(c.0.len() as u32) + c.0 + texture_magic() + be32(c.1.len() as u32)
        + textures_bytes(c.1)
}

/// Reading `n` textures from the front of `b`. A short read is a truncation;
/// the tag is looked at once the payload is there.
pub open spec fn parse_textures(b: Seq<u8>, n: nat) -> Result<Seq<(u8, Seq<u8>)>, Error>
    decreases n,
{
    if n == 0 {
        Ok(Seq::empty())
    } else if b.len() < 5 {
        Err(Error::Truncated)
    } else {
        let len = be32_value(b) as int;
        let tag = b[4];
        if b.len() - 5 < len {
            Err(Error::Truncated)
        } else if tag > 2 {
            Err(Error::Format)
        } else {
            match parse_textures(b.skip(5 + len), (n - 1) as nat) {
                Ok(rest) => Ok(seq![(tag, b.subrange(5, 5 + len))] + rest),
                Err(e) => Err(e),
            }
        }
    }
}

/// Reading a container from the front of `b`; bytes after the last texture
/// are ignored.
pub open spec fn parse_spec(b: Seq<u8>) -> Result<(Seq<u8>, Seq<(u8, Seq<u8>)>), Error> {
    if b.len() < 8 {
        Err(Error::Truncated)
    } else if b.take(8) != puppet_magic() {
        Err(Error::Format)
    } else if b.len() < 12 {
        Err(Error::Truncated)
    } else if b.len() - 12 < be32_value(b.skip(8)) {
        Err(Error::Truncated)
    } else {
        let jlen = be32_value(b.skip(8)) as int;
        let json = b.subrange(12, 12 + jlen);
        let r = b.skip(12 + jlen);
        if r.len() < 8 {
            Err(Error::Truncated)
        } else if r.take(8) != texture_magic() {
            Err(Error::Format)
        } else if r.len() < 12 {
            Err(Error::Truncated)
        } else {
            match parse_textures(r.skip(12), be32_value(r.skip(8)) as nat) {
                Ok(ts) => Ok((json, ts)),
                Err(e) => Err(e),
            }
        }
    }
}

/// Reads one byte at `*pos`.
pub fn read_u8(data: &[u8], pos: &mut usize) -> (r: Result<u8, Error>)
    requires
        *old(pos) <= data@.len(),
    ensures
        match r {
            Ok(v) => *old(pos) < data@.len() && v == data@[*old(pos) as int] && *final(pos) == *old(
                pos,
            ) + 1,
            Err(e) => e == Error::Truncated && *old(pos) == data@.len() && *final(pos) == *old(pos),
        },
{
    if *pos < data.len() {
        let v = data[*pos];
        *pos = *pos + 1;
        Ok(v)
    } else {
        Err(Error::Truncated)
    }
}

/// Reads a big-endian `u32` at `*pos`.
pub fn read_be_u32(data: &[u8], pos: &mut usize) -> (r: Result<u32, Error>)
    requires
        *old(pos) <= data@.len(),
    ensures
        match r {
            Ok(v) => data@.len() - *old(pos) >= 4 && v == be32_value(data@.skip(*old(pos) as int))
                && *final(pos) == *old(pos) + 4,
            Err(e) => e == Error::Truncated && data@.len() - *old(pos) < 4 && *final(pos) == *old(
                pos,
            ),
        },
{
    if data.len() - *pos < 4 {
        return Err(Error::Truncated);
    }
    let p = *pos;
    let v = ((data[p] as u32) << 24u32) | ((data[p + 1] as u32) << 16u32) | ((data[p + 2] as u32)
        << 8u32) | (data[p + 3] as u32);
    *pos = p + 4;
    Ok(v)
}

/// Reads `length` bytes at `*pos`.
pub fn read_array(data: &[u8], pos: &mut usize, length: usize) -> (r: Result<Vec<u8>, Error>)
    requires
        *old(pos) <= data@.len(),
    ensures
        match r {
            Ok(v) => data@.len() - *old(pos) >= length && v@ == data@.subrange(
                *old(pos) as int,
                *old(pos) + length,
            ) && *final(pos) == *old(pos) + length,
            Err(e) => e == Error::Truncated && data@.len() - *old(pos) < length && *final(pos)
                == *old(pos),
        },
{
    if data.len() - *pos < length {
        return Err(Error::Truncated);
    }
    let start = *pos;
    let mut v: Vec<u8> = Vec::with_capacity(length);
    let mut i: usize = 0;
    while i < length
        invariant
            i <= length,
            start + length <= data.len(),
            v@ == data@.subrange(start as int, start + i),
        decreases length - i,
    {
        v.push(data[start + i]);
        i = i + 1;
        proof {
            assert(v@ =~= data@.subrange(start as int, start + i));
        }
    }
    *pos = start + length;
    Ok(v)
}

/// Appends the bytes of `b` to `out`.
fn push_bytes(out: &mut Vec<u8>, b: &[u8])
    ensures
        final(out)@ == old(out)@ + b@,
{
    let mut i: usize = 0;
    while i < b.len()
        invariant
            i <= b@.len(),
            out@ == old(out)@ + b@.take(i as int),
        decreases b@.len() - i,
    {
        out.push(b[i]);
        i = i + 1;
        proof {
            assert(out@ =~= old(out)@ + b@.take(i as int));
        }
    }
    proof {
        assert(b@.take(i as int) =~= b@);
    }
}

/// Appends the big-endian encoding of `v` to `out`.
fn push_be_u32(out: &mut Vec<u8>, v: u32)
    ensures
        final(out)@ == old(out)@ + be32(v),
{
    out.push((v >> 24u32) as u8);
    out.push((v >> 16u32) as u8);
    out.push((v >> 8u32) as u8);
    out.push(v as u8);
    proof {
        assert(out@ =~= old(out)@ + be32(v));
    }
}

fn puppet_magic_bytes() -> (r: Vec<u8>)
    ensures
        r@ == puppet_magic(),
{
    let r = vec![84u8, 82u8, 78u8, 83u8, 82u8, 84u8, 83u8, 0u8];
    proof {
        assert(r@ =~= puppet_magic());
    }
    r
}

fn texture_magic_bytes() -> (r: Vec<u8>)
    ensures
        r@ == texture_magic(),
{
    let r = vec![84u8, 69u8, 88u8, 95u8, 83u8, 69u8, 67u8, 84u8];
    proof {
        assert(r@ =~= texture_magic());
    }
    r
}

/// Whether two byte strings are equal.
fn bytes_eq(a: &[u8], b: &[u8]) -> (r: bool)
    ensures
        r == (a@ == b@),
{
    if a.len() != b.len() {
        return false;
    }
    let mut i: usize = 0;
    while i < a.len()
        invariant
            a@.len() == b@.len(),
            i <= a@.len(),
            forall|k: int| 0 <= k < i ==> a@[k] == b@[k],
        decreases a@.len() - i,
    {
        if a[i] != b[i] {
            return false;
        }
        i = i + 1;
    }
    proof {
        assert(a@ =~= b@);
    }
    true
}

/// The result of reading further textures, behind those already read.
pub open spec fn prepend_textures(
    acc: Seq<(u8, Seq<u8>)>,
    r: Result<Seq<(u8, Seq<u8>)>, Error>,
) -> Result<Seq<(u8, Seq<u8>)>, Error> {
    match r {
        Ok(rest) => Ok(acc + rest),
        Err(e) => Err(e),
    }
}

impl CompressedTexture {
    /// The payload bytes.
    pub fn data(&self) -> (r: &Vec<u8>)
        ensures
            r@ == self@.1,
    {
        match self {
            CompressedTexture::Png(d) => d,
            CompressedTexture::Tga(d) => d,
            CompressedTexture::Bc7(d) => d,
        }
    }

    /// The format tag: 0 for PNG, 1 for TGA, 2 for BC7.
    pub fn tag(&self) -> (r: u8)
        ensures
            r == self@.0,
    {
        match self {
            CompressedTexture::Png(_) => 0,
            CompressedTexture::Tga(_) => 1,
            CompressedTexture::Bc7(_) => 2,
        }
    }

    /// The texture of a known tag (0, 1 or 2) with the given payload.
    pub fn from_tag(tag: u8, data: Vec<u8>) -> (r: CompressedTexture)
        requires
            tag <= 2,
        ensures
            r@ == (tag, data@),
    {
        if tag == 0 {
            CompressedTexture::Png(data)
        } else if tag == 1 {
            CompressedTexture::Tga(data)
        } else {
            CompressedTexture::Bc7(data)
        }
    }
}

impl Container {
    /// Reads a container from the front of `data`. Nothing is returned but
    /// the whole container or the first error met.
    pub fn parse(data: &[u8]) -> (r: Result<Container, Error>)
        ensures
            match r {
                Ok(c) => parse_spec(data@) == Ok::<_, Error>(c@),
                Err(e) => parse_spec(data@) == Err::<(Seq<u8>, Seq<(u8, Seq<u8>)>), Error>(e),
            },
    {
        let mut pos: usize = 0;
        let magic = match read_array(data, &mut pos, 8) {
            Ok(m) => m,
            Err(e) => return Err(e),
        };
        let expected = puppet_magic_bytes();
        if !bytes_eq(magic.as_slice(), expected.as_slice()) {
            return Err(Error::Format);
        }
        let jlen = match read_be_u32(data, &mut pos) {
            Ok(v) => v,
            Err(e) => return Err(e),
        };
        proof {
            assert(data@.skip(8) =~= data@.skip(pos - 4));
        }
        let descriptor = match read_array(data, &mut pos, jlen as usize) {
            Ok(v) => v,
            Err(e) => return Err(e),
        };
        let ghost r = data@.skip(pos as int);
        let magic_at = pos;
        let magic = match read_array(data, &mut pos, 8) {
            Ok(m) => m,
            Err(e) => return Err(e),
        };
        proof {
            assert(magic@ =~= r.take(8));
        }
        let expected = texture_magic_bytes();
        if !bytes_eq(magic.as_slice(), expected.as_slice()) {
            return Err(Error::Format);
        }
        let count = match read_be_u32(data, &mut pos) {
            Ok(v) => v,
            Err(e) => return Err(e),
        };
        proof {
            assert(r.skip(8) =~= data@.skip(magic_at + 8));
            assert(r.skip(12) =~= data@.skip(pos as int));
        }
        let ghost textures_at = pos as int;
        let mut textures: Vec<CompressedTexture> = Vec::new();
        let mut i: u32 = 0;
        while i < count
            invariant
                pos <= data@.len(),
                i <= count,
                parse_spec(data@) == match parse_textures(data@.skip(textures_at), count as nat) {
                    Ok(ts) => Ok((descriptor@, ts)),
                    Err(e) => Err(e),
                },
                parse_textures(data@.skip(textures_at), count as nat) == prepend_textures(
                    textures@.map_values(|t: CompressedTexture| t@),
                    parse_textures(data@.skip(pos as int), (count - i) as nat),
                ),
            decreases count - i,
        {
            let ghost b = data@.skip(pos as int);
            let ghost acc = textures@.map_values(|t: CompressedTexture| t@);
            let len = match read_be_u32(data, &mut pos) {
                Ok(v) => v,
                Err(e) => return Err(e),
            };
            let tag = match read_u8(data, &mut pos) {
                Ok(v) => v,
                Err(e) => return Err(e),
            };
            let payload = match read_array(data, &mut pos, len as usize) {
                Ok(v) => v,
                Err(e) => return Err(e),
            };
            if tag > 2 {
                return Err(Error::Format);
            }
            proof {
                assert(payload@ =~= b.subrange(5, 5 + len));
                assert(b.skip(5 + len) =~= data@.skip(pos as int));
            }
            let t = CompressedTexture::from_tag(tag, payload);
            textures.push(t);
            i = i + 1;
            proof {
                let acc2 = textures@.map_values(|t: CompressedTexture| t@);
                assert(acc2 =~= acc + seq![(tag, b.subrange(5, 5 + len))]);
                match parse_textures(data@.skip(pos as int), (count - i) as nat) {
                    Ok(rest) => {
                        assert(acc + (seq![(tag, b.subrange(5, 5 + len))] + rest) =~= acc2 + rest);
                    },
                    Err(_) => {},
                }
            }
        }
        proof {
            assert(textures@.map_values(|t: CompressedTexture| t@) + Seq::empty() =~= textures@.map_values(|t: CompressedTexture| t@));
        }
        Ok(Container { descriptor, textures })
    }

    /// The bytes of this container.
    pub fn serialize(&self) -> (r: Vec<u8>)
        requires
            container_encodable(self@),
        ensures
            r@ == container_bytes(self@),
    {
        let mut out: Vec<u8> = Vec::new();
        let m = puppet_magic_bytes();
        push_bytes(&mut out, m.as_slice());
        push_be_u32(&mut out, self.descriptor.len() as u32);
        push_bytes(&mut out, self.descriptor.as_slice());
        let m = texture_magic_bytes();
        push_bytes(&mut out, m.as_slice());
        push_be_u32(&mut out, self.textures.len() as u32);
        let ghost head = out@;
        let ghost ts = self@.1;
        let mut i: usize = 0;
        while i < self.textures.len()
            invariant
                ts == self@.1,
                container_encodable(self@),
                i <= self.textures@.len(),
                out@ == head + textures_bytes(ts.take(i as int)),
            decreases self.textures@.len() - i,
        {
            let t = &self.textures[i];
            let d = t.data();
            proof {
                assert(ts[i as int] == t@);
                assert(texture_encodable(ts[i as int]));
            }
            push_be_u32(&mut out, d.len() as u32);
            out.push(t.tag());
            push_bytes(&mut out, d.as_slice());
            proof {
                lemma_textures_bytes_push(ts.take(i as int), ts[i as int]);
                assert(ts.take(i as int).push(ts[i as int]) =~= ts.take(i + 1));
                assert(out@ =~= head + textures_bytes(ts.take(i as int)) + texture_bytes(ts[i as int]));
            }
            i = i + 1;
        }
        proof {
            assert(ts.take(i as int) =~= ts);
        }
        out
    }
}

proof fn lemma_textures_bytes_push(ts: Seq<(u8, Seq<u8>)>, t: (u8, Seq<u8>))
    ensures
        textures_bytes(ts.push(t)) == textures_bytes(ts) + texture_bytes(t),
    decreases ts.len(),
{
    if ts.len() == 0 {
        let s1 = ts.push(t);
        assert(s1.skip(1) =~= Seq::<(u8, Seq<u8>)>::empty());
        assert(s1[0] == t);
        assert(textures_bytes(s1.skip(1)) == Seq::<u8>::empty());
        assert(textures_bytes(ts) == Seq::<u8>::empty());
        assert(textures_bytes(s1) == texture_bytes(t) + Seq::<u8>::empty());
        assert(textures_bytes(s1) =~= textures_bytes(ts) + texture_bytes(t));
    } else {
        assert(ts.push(t).skip(1) =~= ts.skip(1).push(t));
        lemma_textures_bytes_push(ts.skip(1), t);
        assert(textures_bytes(ts.push(t)) =~= textures_bytes(ts) + texture_bytes(t));
    }
}

proof fn lemma_be32_value(v: u32, tail: Seq<u8>)
    ensures
        be32_value(be32(v) + tail) == v,
{
    let b = be32(v) + tail;
    assert(b[0] == (v >> 24u32) as u8);
    assert(b[1] == (v >> 16u32) as u8);
    assert(b[2] == (v >> 8u32) as u8);
    assert(b[3] == v as u8);
    assert(((((v >> 24u32) as u8) as u32) << 24u32) | ((((v >> 16u32) as u8) as u32) << 16u32)
        | ((((v >> 8u32) as u8) as u32) << 8u32) | ((v as u8) as u32) == v) by (bit_vector);
}

proof fn lemma_parse_textures_round_trip(ts: Seq<(u8, Seq<u8>)>, rest: Seq<u8>)
    requires
        forall|i: int| 0 <= i < ts.len() ==> texture_encodable(#[trigger] ts[i]),
    ensures
        parse_textures(textures_bytes(ts) + rest, ts.len()) == Ok::<_, Error>(ts),
    decreases ts.len(),
{
    if ts.len() > 0 {
        let t = ts[0];
        assert(texture_encodable(ts[0]));
        let tail = textures_bytes(ts.skip(1)) + rest;
        let b = textures_bytes(ts) + rest;
        assert(b =~= be32(t.1.len() as u32) + (seq![t.0] + t.1 + tail));
        lemma_be32_value(t.1.len() as u32, seq![t.0] + t.1 + tail);
        let len = t.1.len() as int;
        assert(b[4] == t.0);
        assert(b.skip(5 + len) =~= tail);
        assert(b.subrange(5, 5 + len) =~= t.1);
        assert forall|i: int| 0 <= i < ts.skip(1).len() implies texture_encodable(
            #[trigger] ts.skip(1)[i],
        ) by {
            assert(ts.skip(1)[i] == ts[i + 1]);
        }
        lemma_parse_textures_round_trip(ts.skip(1), rest);
        assert(seq![(t.0, t.1)] + ts.skip(1) =~= ts);
    } else {
        assert(ts =~= Seq::<(u8, Seq<u8>)>::empty());
    }
}

/// Reading back the bytes of a container, followed by anything, gives the
/// same descriptor and the same texture payloads with the same format tags.
pub proof fn lemma_container_round_trip(c: (Seq<u8>, Seq<(u8, Seq<u8>)>), rest: Seq<u8>)
    requires
        container_encodable(c),
    ensures
        parse_spec(container_bytes(c) + rest) == Ok::<_, Error>(c),
{
    let b = container_bytes(c) + rest;
    let jlen = c.0.len() as int;
    let tail = textures_bytes(c.1) + rest;
    let after = texture_magic() + (be32(c.1.len() as u32) + tail);
    let pre = puppet_magic() + be32(c.0.len() as u32);
    assert(b =~= pre + (c.0 + after));
    assert(pre.len() == 12);
    assert(b.take(8) =~= puppet_magic());
    assert(b.skip(8) =~= be32(c.0.len() as u32) + (c.0 + after));
    lemma_be32_value(c.0.len() as u32, c.0 + after);
    assert(be32_value(b.skip(8)) == jlen);
    assert(b.len() == 12 + jlen + after.len());
    assert(b.subrange(12, 12 + jlen) =~= c.0);
    let r = b.skip(12 + jlen);
    assert(r =~= after);
    assert(r.take(8) =~= texture_magic());
    assert(r.skip(8) =~= be32(c.1.len() as u32) + tail);
    lemma_be32_value(c.1.len() as u32, tail);
    assert(r.skip(12) =~= tail);
    lemma_parse_textures_round_trip(c.1, rest);
}

} // verus!
