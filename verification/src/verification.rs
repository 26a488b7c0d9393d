//! Checks on a rendered video against its source: the integer properties that must
//! be preserved, audio packet hashes, and bounded capture of probe output.
use vstd::prelude::*;

use crate::media::{split_on, split_on_chars};
use crate::text::{
    all_white, ascii_hex, chars_eq, chars_of, decimal, decimal_chars, extend_chars, has_prefix, index_of,
    is_ascii_hexdigit, is_blank, lemma_index_of, parse_unsigned, parsed_unsigned, slice_chars, string_of,
    trim, trim_chars, views,
};

verus! {

broadcast use vstd::string::group_string_axioms;

/// One audio stream as probed.
#[derive(Debug, Clone)]
pub struct AudioStreamMetadata {
    pub index: u32,
    pub codec: String,
    pub sample_rate: Option<u32>,
    pub channels: Option<u32>,
    pub channel_layout: Option<String>,
}

/// The result of comparing one audio stream's packets.
#[derive(Debug, Clone)]
pub struct AudioVerification {
    pub source_stream_index: u32,
    pub output_stream_index: u32,
    pub packet_count: u64,
    pub packet_data_sha256_identical: bool,
    pub timestamps_preserved: bool,
}

/// The integer properties of a video that a render must keep.
#[derive(Debug, Clone)]
pub struct VideoShape {
    pub width: u32,
    pub height: u32,
    pub video_stream_count: usize,
    pub frame_count: Option<u64>,
    pub audio_streams: Vec<AudioStreamMetadata>,
}

pub open spec fn audio_matches(a: AudioStreamMetadata, b: AudioStreamMetadata) -> bool {
    a.codec@ == b.codec@ && a.sample_rate == b.sample_rate && a.channels == b.channels
}

/// The first structural difference between a source and its render, if any; otherwise
/// whether the frame count was compared (`Some(true)`) or unknown (`None`).
pub open spec fn structure_verdict(source: VideoShape, output: VideoShape) -> Result<Option<bool>, Seq<char>> {
    if source.width != output.width || source.height != output.height {
        Err(
            "render verification failed: video dimensions changed from "@ + decimal(source.width as nat)
                + "x"@ + decimal(source.height as nat) + " to "@ + decimal(output.width as nat) + "x"@
                + decimal(output.height as nat),
        )
    } else if output.video_stream_count != 1 {
        Err(
            "render verification failed: expected one output video stream, found "@ + decimal(
                output.video_stream_count as nat,
            ),
        )
    } else if source.frame_count is Some && output.frame_count is Some && source.frame_count
        != output.frame_count {
        Err(
            "render verification failed: frame count changed from "@ + decimal(
                source.frame_count.unwrap() as nat,
            ) + " to "@ + decimal(output.frame_count.unwrap() as nat),
        )
    } else if source.audio_streams@.len() != output.audio_streams@.len() {
        Err(
            "render verification failed: audio stream count changed from "@ + decimal(
                source.audio_streams@.len(),
            ) + " to "@ + decimal(output.audio_streams@.len()),
        )
    } else if exists|k: int|
        0 <= k < source.audio_streams@.len() && !audio_matches(
            #[trigger] source.audio_streams@[k],
            output.audio_streams@[k],
        ) {
        let k = choose|k: int|
            0 <= k < source.audio_streams@.len() && !audio_matches(
                #[trigger] source.audio_streams@[k],
                output.audio_streams@[k],
            ) && forall|j: int|
                0 <= j < k ==> audio_matches(
                    #[trigger] source.audio_streams@[j],
                    output.audio_streams@[j],
                );
        Err(
            "render verification failed: audio stream "@ + decimal(k as nat)
                + " codec, sample rate, or channel count changed"@,
        )
    } else if source.frame_count is Some && output.frame_count is Some {
        Ok(Some(true))
    } else {
        Ok(None)
    }
}

fn audio_stream_matches(a: &AudioStreamMetadata, b: &AudioStreamMetadata) -> (r: bool)
    ensures
        r == audio_matches(*a, *b),
{
    crate::text::str_eq(a.codec.as_str(), b.codec.as_str()) && a.sample_rate == b.sample_rate
        && a.channels == b.channels
}

fn text3(a: &str, n: u64, b: &str) -> (r: Vec<char>)
    ensures
        r@ == a@ + decimal(n as nat) + b@,
{
    let mut v = chars_of(a);
    extend_chars(&mut v, &decimal_chars(n));
    extend_chars(&mut v, &chars_of(b));
    v
}

/// Compares the integer properties of a source and its render.
pub fn verify_structure(source: &VideoShape, output: &VideoShape) -> (r: Result<Option<bool>, String>)
    ensures
        match r {
            Ok(v) => structure_verdict(*source, *output) == Ok::<Option<bool>, Seq<char>>(v),
            Err(e) => structure_verdict(*source, *output) == Err::<Option<bool>, Seq<char>>(e@),
        },
{
    if source.width != output.width || source.height != output.height {
        let mut v = text3("render verification failed: video dimensions changed from ", source.width as u64, "x");
        extend_chars(&mut v, &text3("", source.height as u64, " to "));
        extend_chars(&mut v, &text3("", output.width as u64, "x"));
        extend_chars(&mut v, &decimal_chars(output.height as u64));
        proof {
            reveal_strlit("");
            assert(v@ =~= "render verification failed: video dimensions changed from "@ + decimal(source.width as nat)
                + "x"@ + decimal(source.height as nat) + " to "@ + decimal(output.width as nat) + "x"@
                + decimal(output.height as nat));
        }
        return Err(string_of(&v));
    }
    if output.video_stream_count != 1 {
        proof {
            reveal_strlit("");
        }
        return Err(string_of(&text3(
            "render verification failed: expected one output video stream, found ",
            output.video_stream_count as u64,
            "",
        )));
    }
    if let (Some(a), Some(b)) = (source.frame_count, output.frame_count) {
        if a != b {
            let mut v = text3("render verification failed: frame count changed from ", a, " to ");
            extend_chars(&mut v, &decimal_chars(b));
            return Err(string_of(&v));
        }
    }
    if source.audio_streams.len() != output.audio_streams.len() {
        let mut v = text3(
            "render verification failed: audio stream count changed from ",
            source.audio_streams.len() as u64,
            " to ",
        );
        extend_chars(&mut v, &decimal_chars(output.audio_streams.len() as u64));
        return Err(string_of(&v));
    }
    let mut k: usize = 0;
    while k < source.audio_streams.len()
        invariant
            k <= source.audio_streams.len() == output.audio_streams.len(),
            source.width == output.width && source.height == output.height,
            output.video_stream_count == 1,
            !(source.frame_count is Some && output.frame_count is Some && source.frame_count
                != output.frame_count),
            forall|j: int| 0 <= j < k ==> audio_matches(#[trigger] source.audio_streams@[j], output.audio_streams@[j]),
        decreases source.audio_streams.len() - k,
    {
        if !audio_stream_matches(&source.audio_streams[k], &output.audio_streams[k]) {
            proof {
                assert(0 <= k < source.audio_streams@.len() && !audio_matches(
                    source.audio_streams@[k as int],
                    output.audio_streams@[k as int],
                ) && forall|j: int|
                    0 <= j < k ==> audio_matches(
                        #[trigger] source.audio_streams@[j],
                        output.audio_streams@[j],
                    ));
                let w = choose|w: int|
                    0 <= w < source.audio_streams@.len() && !audio_matches(
                        #[trigger] source.audio_streams@[w],
                        output.audio_streams@[w],
                    ) && forall|j: int|
                        0 <= j < w ==> audio_matches(
                            #[trigger] source.audio_streams@[j],
                            output.audio_streams@[j],
                        );
                assert(w == k) by {
                    if w < k {
                        assert(audio_matches(source.audio_streams@[w], output.audio_streams@[w]));
                    }
                    if w > k {
                        assert(audio_matches(source.audio_streams@[k as int], output.audio_streams@[k as int]));
                    }
                }
            }
            return Err(string_of(&text3(
                "render verification failed: audio stream ",
                k as u64,
                " codec, sample rate, or channel count changed",
            )));
        }
        k += 1;
    }
    match (source.frame_count, output.frame_count) {
        (Some(_), Some(_)) => Ok(Some(true)),
        _ => Ok(None),
    }
}

// ---------------------------------------------------------------------------
// Audio packet hashes.
// ---------------------------------------------------------------------------

/// `SHA256:` followed by 64 hex digits.
pub open spec fn valid_hash(h: Seq<char>) -> bool {
    has_prefix(h, "SHA256:"@) && h.len() == 71 && forall|k: int| 7 <= k < 71 ==> ascii_hex(#[trigger] h[k])
}

pub fn valid_packet_hash(hash: &str) -> (r: bool)
    ensures
        r == valid_hash(hash@),
{
    let h = chars_of(hash);
    proof {
        reveal_strlit("SHA256:");
    }
    if !crate::text::starts_with(&h, &chars_of("SHA256:")) || h.len() != 71 {
        return false;
    }
    let mut k: usize = 7;
    while k < 71
        invariant
            7 <= k <= 71,
            h.len() == 71,
            h@ == hash@,
            forall|j: int| 7 <= j < k ==> ascii_hex(#[trigger] h@[j]),
        decreases 71 - k,
    {
        if !is_ascii_hexdigit(h[k]) {
            return false;
        }
        k += 1;
    }
    true
}

/// Longest packet line, in bytes, that the packet reader accepts.
pub const MAX_PACKET_LINE_BYTES: usize = 16384;

/// Whether a packet line of `byte_count` bytes is within the limit.
pub fn packet_line_within_limit(byte_count: usize) -> (r: bool)
    ensures
        r == (byte_count <= MAX_PACKET_LINE_BYTES),
{
    byte_count <= MAX_PACKET_LINE_BYTES
}

/// One audio packet line, with its timestamps kept as the text the probe wrote.
#[derive(Debug, Clone)]
pub struct PacketLine {
    pub hash: String,
    pub size: u64,
    pub pts: Option<String>,
    pub dts: Option<String>,
    pub duration: Option<String>,
}

/// The value of the last `key=value` field named `key`, as collecting the fields into
/// a map keeps it; a field without `=` names nothing.
pub open spec fn field_value(fields: Seq<Seq<char>>, key: Seq<char>) -> Option<Seq<char>>
    decreases fields.len(),
{
    if fields.len() == 0 {
        None
    } else {
        let f = fields.last();
        let i = index_of(f, '=') as int;
        if i < f.len() && f.subrange(0, i) == key {
            Some(f.subrange(i + 1, f.len() as int))
        } else {
            field_value(fields.drop_last(), key)
        }
    }
}

/// A timestamp field: absent or `N/A` is no value.
pub open spec fn timestamp_field(fields: Seq<Seq<char>>, key: Seq<char>) -> Option<Seq<char>> {
    match field_value(fields, key) {
        Some(v) => if v == "N/A"@ {
            None
        } else {
            Some(v)
        },
        None => None,
    }
}

/// What a packet line gives: `Ok(None)` for a blank line, the packet, or the error.
pub open spec fn packet_verdict(line: Seq<char>) -> Result<
    Option<(Seq<char>, int, Option<Seq<char>>, Option<Seq<char>>, Option<Seq<char>>)>,
    Seq<char>,
> {
    let fields = split_on(trim(line), '|');
    if all_white(line) {
        Ok(None)
    } else if field_value(fields, "data_hash"@) is None {
        Err("audio packet is missing its SHA256 data hash"@)
    } else if !valid_hash(field_value(fields, "data_hash"@).unwrap()) {
        Err("audio packet has an invalid SHA256 data hash"@)
    } else if field_value(fields, "size"@) is None {
        Err("audio packet is missing its size"@)
    } else if parsed_unsigned(field_value(fields, "size"@).unwrap(), u64::MAX as int) is None {
        Err("audio packet has an invalid size"@)
    } else {
        Ok(
            Some(
                (
                    field_value(fields, "data_hash"@).unwrap(),
                    parsed_unsigned(field_value(fields, "size"@).unwrap(), u64::MAX as int).unwrap(),
                    timestamp_field(fields, "pts_time"@),
                    timestamp_field(fields, "dts_time"@),
                    timestamp_field(fields, "duration_time"@),
                ),
            ),
        )
    }
}

fn find_field(fields: &Vec<Vec<char>>, key: &str) -> (r: Option<Vec<char>>)
    ensures
        match r {
            Some(v) => field_value(views(fields@), key@) == Some(v@),
            None => field_value(views(fields@), key@) is None,
        },
{
    let k = chars_of(key);
    let mut found: Option<Vec<char>> = None;
    let mut i: usize = 0;
    while i < fields.len()
        invariant
            i <= fields.len(),
            k@ == key@,
            match found {
                Some(v) => field_value(views(fields@).subrange(0, i as int), key@) == Some(v@),
                None => field_value(views(fields@).subrange(0, i as int), key@) is None,
            },
        decreases fields.len() - i,
    {
        let f = &fields[i];
        let ghost prefix = views(fields@).subrange(0, i as int + 1);
        proof {
            assert(prefix.drop_last() =~= views(fields@).subrange(0, i as int));
            assert(prefix.last() == f@);
            lemma_index_of(f@, '=');
        }
        let mut j: usize = 0;
        while j < f.len() && f[j] != '='
            invariant
                j <= f.len(),
                forall|m: int| 0 <= m < j ==> f@[m] != '=',
            decreases f.len() - j,
        {
            j += 1;
        }
        proof {
            crate::text::lemma_index_of_at(f@, '=', j as int);
        }
        if j < f.len() {
            let name = slice_chars(f, 0, j);
            if chars_eq(&name, &k) {
                found = Some(slice_chars(f, j + 1, f.len()));
            }
        }
        i += 1;
    }
    assert(views(fields@).subrange(0, fields.len() as int) =~= views(fields@));
    found
}

fn find_timestamp(fields: &Vec<Vec<char>>, key: &str) -> (r: Option<String>)
    ensures
        match r {
            Some(v) => timestamp_field(views(fields@), key@) == Some(v@),
            None => timestamp_field(views(fields@), key@) is None,
        },
{
    match find_field(fields, key) {
        Some(v) => {
            proof {
                reveal_strlit("N/A");
            }
            if chars_eq(&v, &chars_of("N/A")) {
                None
            } else {
                Some(string_of(&v))
            }
        },
        None => None,
    }
}

/// Reads one packet line written by the probe: `Ok(None)` for a blank line, else the
/// packet with its SHA256 data hash and size checked.
pub fn parse_packet_line(line: &str) -> (r: Result<Option<PacketLine>, String>)
    ensures
        match r {
            Ok(None) => packet_verdict(line@) == Ok::<
                Option<(Seq<char>, int, Option<Seq<char>>, Option<Seq<char>>, Option<Seq<char>>)>,
                Seq<char>,
            >(None),
            Ok(Some(p)) => packet_verdict(line@) == Ok::<
                Option<(Seq<char>, int, Option<Seq<char>>, Option<Seq<char>>, Option<Seq<char>>)>,
                Seq<char>,
            >(
                Some(
                    (
                        p.hash@,
                        p.size as int,
                        crate::text::opt_string(p.pts),
                        crate::text::opt_string(p.dts),
                        crate::text::opt_string(p.duration),
                    ),
                ),
            ),
            Err(e) => packet_verdict(line@) == Err::<
                Option<(Seq<char>, int, Option<Seq<char>>, Option<Seq<char>>, Option<Seq<char>>)>,
                Seq<char>,
            >(e@),
        },
{
    let chars = chars_of(line);
    if is_blank(&chars) {
        return Ok(None);
    }
    let fields = split_on_chars(&trim_chars(&chars), '|');
    let hash = match find_field(&fields, "data_hash") {
        Some(h) => h,
        None => return Err(string_of(&chars_of("audio packet is missing its SHA256 data hash"))),
    };
    let hash_text = string_of(&hash);
    if !valid_packet_hash(hash_text.as_str()) {
        return Err(string_of(&chars_of("audio packet has an invalid SHA256 data hash")));
    }
    let size = match find_field(&fields, "size") {
        Some(v) => match parse_unsigned(&v, u64::MAX) {
            Some(n) => n,
            None => return Err(string_of(&chars_of("audio packet has an invalid size"))),
        },
        None => return Err(string_of(&chars_of("audio packet is missing its size"))),
    };
    let pts = find_timestamp(&fields, "pts_time");
    let dts = find_timestamp(&fields, "dts_time");
    let duration = find_timestamp(&fields, "duration_time");
    Ok(Some(PacketLine { hash: hash_text, size, pts, dts, duration }))
}

/// Compares the data of the `count`-th pair of packets.
pub fn compare_packet_data(count: u64, source: &PacketLine, candidate: &PacketLine) -> (r: Result<(), String>)
    ensures
        r is Ok <==> (source.hash@ == candidate.hash@ && source.size == candidate.size),
        r matches Err(e) ==> e@ == "audio packet "@ + decimal(count as nat)
            + " data changed; audio must be copied without re-encoding"@,
{
    if crate::text::str_eq(source.hash.as_str(), candidate.hash.as_str()) && source.size == candidate.size {
        Ok(())
    } else {
        Err(string_of(&text3("audio packet ", count, " data changed; audio must be copied without re-encoding")))
    }
}

// ---------------------------------------------------------------------------
// Bounded capture.
// ---------------------------------------------------------------------------

/// The bytes kept from a stream of chunks: everything up to `limit` bytes.
pub open spec fn kept_bytes(chunks: Seq<Seq<u8>>, limit: int) -> Seq<u8>
    decreases chunks.len(),
{
    if chunks.len() == 0 {
        seq![]
    } else {
        let before = kept_bytes(chunks.drop_last(), limit);
        let room = if limit - before.len() < 0 {
            0
        } else {
            limit - before.len()
        };
        let take = if chunks.last().len() < room {
            chunks.last().len() as int
        } else {
            room
        };
        before + chunks.last().subrange(0, take)
    }
}

/// Whether any chunk lost bytes to the limit.
pub open spec fn truncated_any(chunks: Seq<Seq<u8>>, limit: int) -> bool
    decreases chunks.len(),
{
    if chunks.len() == 0 {
        false
    } else {
        let before = kept_bytes(chunks.drop_last(), limit);
        let room = if limit - before.len() < 0 {
            0
        } else {
            limit - before.len()
        };
        truncated_any(chunks.drop_last(), limit) || chunks.last().len() > room
    }
}

pub proof fn lemma_kept_bounded(chunks: Seq<Seq<u8>>, limit: int)
    requires
        limit >= 0,
    ensures
        kept_bytes(chunks, limit).len() <= limit,
    decreases chunks.len(),
{
    if chunks.len() > 0 {
        lemma_kept_bounded(chunks.drop_last(), limit);
    }
}

/// Appends as much of `chunk` as fits within `limit`; reports whether any was left out.
pub fn append_bounded(output: &mut Vec<u8>, chunk: &[u8], limit: usize) -> (truncated: bool)
    ensures
        ({
            let room = if limit - old(output)@.len() < 0 {
                0
            } else {
                limit - old(output)@.len()
            };
            let take = if chunk@.len() < room {
                chunk@.len() as int
            } else {
                room
            };
            &&& final(output)@ == old(output)@ + chunk@.subrange(0, take)
            &&& truncated == (chunk@.len() > room)
        }),
{
    let room = limit.saturating_sub(output.len());
    let take = if chunk.len() < room {
        chunk.len()
    } else {
        room
    };
    let mut i: usize = 0;
    let ghost start = output@;
    while i < take
        invariant
            i <= take <= chunk.len(),
            output@ == start + chunk@.subrange(0, i as int),
        decreases take - i,
    {
        output.push(chunk[i]);
        i += 1;
        assert(output@ =~= start + chunk@.subrange(0, i as int));
    }
    take < chunk.len()
}

/// Reads a stream given as its chunks, keeping at most `limit` bytes and noting
/// whether anything was dropped.
pub fn read_bounded(chunks: &Vec<Vec<u8>>, limit: usize) -> (r: (Vec<u8>, bool))
    ensures
        r.0@ == kept_bytes(chunks@.map_values(|c: Vec<u8>| c@), limit as int),
        r.1 == truncated_any(chunks@.map_values(|c: Vec<u8>| c@), limit as int),
        r.0@.len() <= limit,
{
    let ghost all = chunks@.map_values(|c: Vec<u8>| c@);
    let mut output: Vec<u8> = Vec::new();
    let mut truncated = false;
    let mut i: usize = 0;
    while i < chunks.len()
        invariant
            i <= chunks.len(),
            all == chunks@.map_values(|c: Vec<u8>| c@),
            output@ == kept_bytes(all.subrange(0, i as int), limit as int),
            truncated == truncated_any(all.subrange(0, i as int), limit as int),
        decreases chunks.len() - i,
    {
        proof {
            let prefix = all.subrange(0, i as int + 1);
            assert(prefix.drop_last() =~= all.subrange(0, i as int));
            assert(prefix.last() == chunks@[i as int]@);
        }
        let dropped = append_bounded(&mut output, &chunks[i], limit);
        truncated = truncated || dropped;
        i += 1;
    }
    assert(all.subrange(0, chunks.len() as int) =~= all);
    proof {
        lemma_kept_bounded(all, limit as int);
    }
    (output, truncated)
}

} // verus!
