//! Packing a map's radar image for the WebSocket clients: the JPEG bytes
//! are encoded as Base64 text, which is cut into chunks of at most
//! `CHUNK_LEN` characters (the clients' WebSocket frames cannot hold more),
//! announced by a `MapInfo` that tells how many chunks follow.
use vstd::prelude::*;
use vstd::string::StrSliceExecFns;
use vstd::string::StringExecFns;

verus! {

broadcast use vstd::string::group_string_axioms;

/// Most characters one chunk carries: 62 KiB.
pub const CHUNK_LEN: usize = 63488;

/// Announces a map: its name, the number of image chunks that follow, and
/// the placement of the radar image in world coordinates (upper-left
/// corner and scale), each an `f32` held by its bit pattern.
pub struct MapInfo {
    pub name: String,
    pub chunks: usize,
    pub upper_left_x: u32,
    pub upper_left_y: u32,
    pub scale: u32,
}

/// One piece of the Base64 text of a map's radar image; `i` is its place
/// among the pieces, counted from 0.
pub struct MapChunk {
    pub i: usize,
    pub data: String,
}

/// The Base64 encoding of `bytes` with the standard alphabet and padding,
/// as the `base64` crate computes it.
pub uninterp spec fn base64_standard(bytes: Seq<u8>) -> Seq<char>;

/// Whether `c` belongs to the standard Base64 alphabet or is the padding `=`.
pub open spec fn is_base64_char(c: char) -> bool {
    ||| 'A' <= c <= 'Z'
    ||| 'a' <= c <= 'z'
    ||| '0' <= c <= '9'
    ||| c == '+'
    ||| c == '/'
    ||| c == '='
}

/// Length of the padded Base64 encoding of `n` bytes.
pub open spec fn base64_len(n: nat) -> nat {
    4 * ((n + 2) / 3)
}

/// Wraps `base64::encode`, which encodes with the crate's `STANDARD`
/// engine (the standard alphabet, with `=` padding). Stated: the result is
/// `base64_standard` of the input, its length is 4 characters per started
/// group of 3 bytes, and each character is from the alphabet or `=`. The
/// call panics when that length does not fit in `usize`, which `requires`
/// leaves out.
#[verifier::external_body]
#[allow(deprecated)]
fn base64_encode(bytes: &[u8]) -> (res: String)
    requires
        base64_len(bytes@.len()) <= usize::MAX,
    ensures
        res@ == base64_standard(bytes@),
        res@.len() == base64_len(bytes@.len()),
        forall|i: int| 0 <= i < res@.len() ==> is_base64_char(#[trigger] res@[i]),
{
    base64::encode(bytes)
}

/// Number of chunks a text of `len` characters is cut into.
pub open spec fn chunk_count(len: nat) -> nat {
    ((len + CHUNK_LEN - 1) / (CHUNK_LEN as int)) as nat
}

/// Start, in the text, of chunk `k`.
pub open spec fn chunk_start(k: int) -> int {
    k * CHUNK_LEN
}

/// End, in a text of `len` characters, of chunk `k`.
pub open spec fn chunk_end(k: int, len: nat) -> int {
    if chunk_start(k) + CHUNK_LEN <= len {
        chunk_start(k) + CHUNK_LEN
    } else {
        len as int
    }
}

/// Whether `chunks` is the text `text` cut into chunks: chunk `k` has
/// index `k` and holds the characters from `k * CHUNK_LEN` up to the next
/// multiple of `CHUNK_LEN` or the end of the text.
pub open spec fn is_chunking(chunks: Seq<MapChunk>, text: Seq<char>) -> bool {
    &&& chunks.len() == chunk_count(text.len())
    &&& forall|k: int|
        0 <= k < chunks.len() ==> {
            &&& (#[trigger] chunks[k]).i == k
            &&& chunks[k].data@ == text.subrange(chunk_start(k), chunk_end(k, text.len()))
        }
}

/// Whether `info` and `chunks` announce and carry map `name` placed at
/// (`x`, `y`) with scale `scale`, whose image has the Base64 text `text`.
pub open spec fn is_packed(
    info: MapInfo,
    chunks: Seq<MapChunk>,
    name: Seq<char>,
    x: u32,
    y: u32,
    scale: u32,
    text: Seq<char>,
) -> bool {
    &&& info.name@ == name
    &&& info.chunks == chunks.len()
    &&& info.upper_left_x == x
    &&& info.upper_left_y == y
    &&& info.scale == scale
    &&& is_chunking(chunks, text)
}

proof fn lemma_chunk_count(k: int, len: nat)
    requires
        0 <= k,
        chunk_start(k) <= len,
    ensures
        chunk_start(k) < len ==> k < chunk_count(len),
        chunk_start(k) == len ==> k == chunk_count(len),
        chunk_end(k, len) == len ==> k + 1 >= chunk_count(len),
        chunk_end(k, len) < len ==> k + 1 < chunk_count(len),
{
}

/// Cuts the Base64 text `encoded` of map `name`'s radar image into chunks
/// and builds the announcement; `x`, `y` and `scale` are the bit patterns
/// of the image's placement.
pub fn chunk_encoded(name: &str, x: u32, y: u32, scale: u32, encoded: &str) -> (res: (
    MapInfo,
    Vec<MapChunk>,
))
    requires
        encoded.is_ascii(),
    ensures
        is_packed(res.0, res.1@, name@, x, y, scale, encoded@),
{
    let len = encoded.unicode_len();
    let mut chunks: Vec<MapChunk> = Vec::new();
    let mut start: usize = 0;
    let mut n: usize = 0;
    while start < len
        invariant
            len == encoded@.len(),
            encoded.is_ascii(),
            n == chunks@.len(),
            start < len ==> start == chunk_start(n as int),
            start <= len,
            start < len ==> n < chunk_count(len as nat),
            start == len ==> n == chunk_count(len as nat),
            forall|k: int|
                0 <= k < chunks@.len() ==> {
                    &&& (#[trigger] chunks@[k]).i == k
                    &&& chunks@[k].data@ == encoded@.subrange(
                        chunk_start(k),
                        chunk_end(k, len as nat),
                    )
                },
        decreases len - start,
    {
        let end = if len - start <= CHUNK_LEN {
            len
        } else {
            start + CHUNK_LEN
        };
        let data = String::from_str(encoded.substring_ascii(start, end));
        proof {
            lemma_chunk_count(n as int, len as nat);
        }
        chunks.push(MapChunk { i: n, data });
        n = n + 1;
        start = end;
    }
    let info = MapInfo {
        name: String::from_str(name),
        chunks: n,
        upper_left_x: x,
        upper_left_y: y,
        scale,
    };
    (info, chunks)
}

/// Packs map `name`'s radar image, given as JPEG bytes: encodes them as
/// Base64 and cuts the text into chunks (see [`chunk_encoded`]).
pub fn pack_map(name: &str, x: u32, y: u32, scale: u32, jpeg: &[u8]) -> (res: (
    MapInfo,
    Vec<MapChunk>,
))
    requires
        base64_len(jpeg@.len()) <= usize::MAX,
    ensures
        is_packed(res.0, res.1@, name@, x, y, scale, base64_standard(jpeg@)),
{
    let encoded = base64_encode(jpeg);
    assert(encoded.is_ascii());
    chunk_encoded(name, x, y, scale, encoded.as_str())
}

/// The JPEG (quality 80) of the image decoded from the DDS bytes `dds`,
/// as the `image` crate computes it; `None` when `image` cannot decode
/// the bytes as DDS or cannot encode the image.
pub uninterp spec fn dds_jpeg(dds: Seq<u8>) -> Option<Seq<u8>>;

/// The same as `dds_jpeg`, with the image turned by 180 degrees before it
/// is encoded.
pub uninterp spec fn dds_jpeg_rotated(dds: Seq<u8>) -> Option<Seq<u8>>;

/// Wraps `image::load_from_memory_with_format` (as DDS) and
/// `DynamicImage::write_to` (as JPEG of quality 80, into memory). Stated:
/// the result is `dds_jpeg` of the bytes.
#[verifier::external_body]
fn encode_dds_jpeg(dds: &[u8]) -> (res: Option<Vec<u8>>)
    ensures
        (match res {
            Some(v) => dds_jpeg(dds@) == Some(v@),
            None => dds_jpeg(dds@) is None,
        }),
{
    let img = image::load_from_memory_with_format(dds, image::ImageFormat::Dds).ok()?;
    let mut writer = std::io::Cursor::new(Vec::new());
    img.write_to(&mut writer, image::ImageOutputFormat::Jpeg(80)).ok()?;
    Some(writer.into_inner())
}

/// Wraps `image::load_from_memory_with_format` (as DDS),
/// `DynamicImage::rotate180` and `DynamicImage::write_to` (as JPEG of
/// quality 80, into memory). Stated: the result is `dds_jpeg_rotated` of
/// the bytes.
#[verifier::external_body]
fn encode_dds_jpeg_rotated(dds: &[u8]) -> (res: Option<Vec<u8>>)
    ensures
        (match res {
            Some(v) => dds_jpeg_rotated(dds@) == Some(v@),
            None => dds_jpeg_rotated(dds@) is None,
        }),
{
    let img = image::load_from_memory_with_format(dds, image::ImageFormat::Dds).ok()?;
    let img = img.rotate180();
    let mut writer = std::io::Cursor::new(Vec::new());
    img.write_to(&mut writer, image::ImageOutputFormat::Jpeg(80)).ok()?;
    Some(writer.into_inner())
}

/// The bytes of an optional byte vector.
pub open spec fn opt_bytes(o: Option<Vec<u8>>) -> Option<Seq<u8>> {
    match o {
        Some(v) => Some(v@),
        None => None,
    }
}

/// The JPEG of a map's radar image read as DDS, turned upright first
/// unless the overview says it `already_rotated`.
pub open spec fn radar_jpeg_of(dds: Seq<u8>, already_rotated: bool) -> Option<Seq<u8>> {
    if already_rotated {
        dds_jpeg(dds)
    } else {
        dds_jpeg_rotated(dds)
    }
}

/// The JPEG of the radar image whose DDS file holds `dds`, turned by 180
/// degrees unless `already_rotated`; `None` when it cannot be decoded or
/// encoded.
pub fn radar_jpeg(dds: &[u8], already_rotated: bool) -> (res: Option<Vec<u8>>)
    ensures
        opt_bytes(res) == radar_jpeg_of(dds@, already_rotated),
{
    if already_rotated {
        encode_dds_jpeg(dds)
    } else {
        encode_dds_jpeg_rotated(dds)
    }
}

/// What became of a map's radar image.
pub enum RadarImage {
    /// The image, packed for the clients.
    Packed(MapInfo, Vec<MapChunk>),
    /// The DDS bytes could not be turned into a JPEG.
    Unreadable,
    /// The JPEG is too large for its Base64 text's length to be a `usize`
    /// (the program stops on this, as the encoder panics).
    TooLarge,
}

/// Prepares map `name`'s radar image for the clients: the DDS bytes `dds`
/// are turned upright unless `already_rotated`, encoded as JPEG, and the
/// JPEG is packed (see [`pack_map`]) with the placement `x`, `y`, `scale`.
pub fn pack_radar_image(
    name: &str,
    x: u32,
    y: u32,
    scale: u32,
    dds: &[u8],
    already_rotated: bool,
) -> (res: RadarImage)
    ensures
        match radar_jpeg_of(dds@, already_rotated) {
            None => res is Unreadable,
            Some(jpeg) => if base64_len(jpeg.len()) <= usize::MAX {
                res matches RadarImage::Packed(info, chunks) && is_packed(
                    info,
                    chunks@,
                    name@,
                    x,
                    y,
                    scale,
                    base64_standard(jpeg),
                )
            } else {
                res is TooLarge
            },
        },
{
    match radar_jpeg(dds, already_rotated) {
        None => RadarImage::Unreadable,
        Some(jpeg) => {
            let n = jpeg.len();
            let groups = n / 3 + if n % 3 > 0 {
                1
            } else {
                0
            };
            assert(groups == (n + 2) / 3);
            if groups > usize::MAX / 4 {
                RadarImage::TooLarge
            } else {
                let (info, chunks) = pack_map(name, x, y, scale, jpeg.as_slice());
                RadarImage::Packed(info, chunks)
            }
        },
    }
}

/// The text that `chunks` carry, one after the other.
pub open spec fn joined(chunks: Seq<MapChunk>) -> Seq<char>
    decreases chunks.len(),
{
    if chunks.len() == 0 {
        Seq::empty()
    } else {
        joined(chunks.drop_last()) + chunks.last().data@
    }
}

proof fn lemma_joined_prefix(chunks: Seq<MapChunk>, text: Seq<char>, m: int)
    requires
        is_chunking(chunks, text),
        0 <= m <= chunks.len(),
    ensures
        joined(chunks.subrange(0, m)) == text.subrange(0, chunk_end(m - 1, text.len())),
    decreases m,
{
    if m == 0 {
        assert(joined(chunks.subrange(0, 0)) =~= Seq::<char>::empty());
        assert(text.subrange(0, 0) =~= Seq::<char>::empty());
    } else {
        lemma_joined_prefix(chunks, text, m - 1);
        let pre = chunks.subrange(0, m);
        assert(pre.drop_last() =~= chunks.subrange(0, m - 1));
        lemma_chunk_count(m - 1, text.len());
        if m >= 2 {
            lemma_chunk_count(m - 2, text.len());
        }
        assert(text.subrange(0, chunk_end(m - 2, text.len())) + text.subrange(
            chunk_start(m - 1),
            chunk_end(m - 1, text.len()),
        ) =~= text.subrange(0, chunk_end(m - 1, text.len())));
    }
}

/// The chunks put back together give the whole text: a client that
/// appends the chunks in order recovers the Base64 image.
pub proof fn lemma_chunks_rejoin(chunks: Seq<MapChunk>, text: Seq<char>)
    requires
        is_chunking(chunks, text),
    ensures
        joined(chunks) == text,
{
    lemma_joined_prefix(chunks, text, chunks.len() as int);
    assert(chunks.subrange(0, chunks.len() as int) =~= chunks);
    if chunks.len() == 0 {
        assert(text.len() == 0);
    } else {
        lemma_chunk_count(chunks.len() - 1, text.len());
    }
    assert(text.subrange(0, text.len() as int) =~= text);
}

/// No chunk is empty and none is longer than `CHUNK_LEN` characters, and
/// every chunk but the last is exactly `CHUNK_LEN` long.
pub proof fn lemma_chunk_sizes(chunks: Seq<MapChunk>, text: Seq<char>)
    requires
        is_chunking(chunks, text),
    ensures
        forall|k: int|
            0 <= k < chunks.len() ==> 0 < (#[trigger] chunks[k]).data@.len() <= CHUNK_LEN,
        forall|k: int| 0 <= k < chunks.len() - 1 ==> (#[trigger] chunks[k]).data@.len() == CHUNK_LEN,
{
    assert forall|k: int| 0 <= k < chunks.len() implies 0 < (#[trigger] chunks[k]).data@.len()
        <= CHUNK_LEN by {
        lemma_chunk_count(k, text.len());
    }
    assert forall|k: int| 0 <= k < chunks.len() - 1 implies (#[trigger] chunks[k]).data@.len()
        == CHUNK_LEN by {
        lemma_chunk_count(k + 1, text.len());
    }
}

} // verus!
