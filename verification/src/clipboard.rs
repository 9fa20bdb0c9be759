//! What a clipboard change turns into: the flag that makes the monitor ignore
//! the app's own writes, de-duplication by content hash, and the clip record
//! built from copied text or from a copied image.

use vstd::prelude::*;
use base64::Engine;
use image::ImageEncoder;
use std::hash::{Hash, Hasher};
use crate::categories::{content_label, detect_content_type};
use crate::numbers::{decimal, decimal_chars, hex_chars, hex_lower, lemma_hex_lower_injective};
use crate::text::{
    chars_of, concat, prefix_bytes, prefix_within_bytes, string_from_chars, subvec, utf8_len,
    lemma_prefix_bytes_mono,
};

verus! {

// ---------------------------------------------------------------------------
// Ignoring the app's own writes
// ---------------------------------------------------------------------------

/// Set just before the app writes to the clipboard itself, so that the monitor
/// ignores the change that this write causes.
pub struct SkipFlag {
    pub skip: bool,
}

impl SkipFlag {
    /// A flag that is not set.
    pub fn new() -> (r: Self)
        ensures
            !r.skip,
    {
        SkipFlag { skip: false }
    }
}

/// The flag after `set_skip_next`.
pub open spec fn flag_after_set(flag: bool) -> bool {
    true
}

/// A clipboard change is read unless the flag is set.
pub open spec fn change_is_read(flag: bool) -> bool {
    !flag
}

/// The flag after a clipboard change.
pub open spec fn flag_after_change(flag: bool) -> bool {
    false
}

/// Sets the flag: the next clipboard change is the app's own and is ignored.
pub fn set_skip_next(flag: &mut SkipFlag)
    ensures
        final(flag).skip == flag_after_set(old(flag).skip),
{
    flag.skip = true;
}

// ---------------------------------------------------------------------------
// Records handed to the store
// ---------------------------------------------------------------------------

/// A clip ready to be inserted: content, content type, preview, hash and, for
/// an image, its PNG encoding in base64.
pub struct NewClip {
    pub content: String,
    pub content_type: String,
    pub preview: String,
    pub hash: String,
    pub image_base64: Option<String>,
}

/// An image read from the clipboard: width and height in pixels, and its
/// pixels as RGBA bytes, row by row.
pub struct ImageData {
    pub width: usize,
    pub height: usize,
    pub bytes: Vec<u8>,
}

impl ImageData {
    /// Width and height fit in `u32`, and there are four bytes per pixel.
    pub open spec fn wf(&self) -> bool {
        &&& self.width <= u32::MAX
        &&& self.height <= u32::MAX
        &&& self.bytes@.len() == self.width * 4 * self.height
    }
}

// ---------------------------------------------------------------------------
// Text clips
// ---------------------------------------------------------------------------

/// The most bytes of copied text that are kept (50 KiB).
pub const MAX_CONTENT_BYTES: usize = 51200;

/// The longest prefix of `t` whose UTF-8 encoding fits in `max` bytes: `t`
/// cut at the last character boundary at or before byte `max`.
pub open spec fn bounded_prefix(t: Seq<char>, max: nat) -> Seq<char>
    decreases t.len(),
{
    if utf8_len(t) <= max || t.len() == 0 {
        t
    } else {
        bounded_prefix(t.drop_last(), max)
    }
}

/// The preview of `t`: `t` itself when it has at most `max` characters, else
/// its first `max` characters followed by `...`.
pub open spec fn preview_spec(t: Seq<char>, max: nat) -> Seq<char> {
    if t.len() <= max {
        t
    } else {
        t.take(max as int) + "..."@
    }
}

proof fn lemma_bounded_prefix(t: Seq<char>, max: nat, k: int)
    requires
        0 <= k <= t.len(),
        prefix_bytes(t, k) <= max,
        k < t.len() ==> prefix_bytes(t, k + 1) > max,
    ensures
        bounded_prefix(t, max) == t.take(k),
    decreases t.len(),
{
    assert(t.subrange(0, t.len() as int) =~= t);
    if k == t.len() {
        assert(t.take(k) =~= t);
    } else {
        lemma_prefix_bytes_mono(t, k + 1, t.len() as int);
        let u = t.drop_last();
        assert(u.subrange(0, k) =~= t.subrange(0, k));
        if k + 1 <= u.len() {
            assert(u.subrange(0, k + 1) =~= t.subrange(0, k + 1));
        }
        lemma_bounded_prefix(u, max, k);
        assert(u.take(k) =~= t.take(k));
    }
}

/// `text` cut to its first `max_chars` characters, with `...` appended when
/// something was cut.
pub fn truncate_preview(text: &str, max_chars: usize) -> (r: String)
    ensures
        r@ == preview_spec(text@, max_chars as nat),
{
    let chars = chars_of(text);
    if chars.len() <= max_chars {
        string_from_chars(&chars)
    } else {
        let head = subvec(&chars, 0, max_chars);
        let dots = chars_of("...");
        string_from_chars(&concat(&head, &dots))
    }
}

/// What `DefaultHasher` gives for a `str` with the characters `s`, when
/// created with `DefaultHasher::new` (whose keys are fixed).
pub uninterp spec fn text_hash(s: Seq<char>) -> u64;

/// What `DefaultHasher` gives for a byte slice `b`, created with
/// `DefaultHasher::new` (the slice's length goes in as a native `usize`, so
/// the value is fixed for a given build target).
pub uninterp spec fn bytes_hash(b: Seq<u8>) -> u64;

/// Hashes `content` with a fresh `DefaultHasher::new()` through `Hash for str`
/// and `Hasher::finish`; the contract claims only that the result is
/// `text_hash(content@)`, a function of the text alone.
#[verifier::external_body]
fn hash_str(content: &str) -> (h: u64)
    ensures
        h == text_hash(content@),
{
    let mut hasher = std::collections::hash_map::DefaultHasher::new();
    content.hash(&mut hasher);
    hasher.finish()
}

/// Hashes `bytes` with a fresh `DefaultHasher::new()` through `Hash for [u8]`
/// and `Hasher::finish`; the contract claims only that the result is
/// `bytes_hash(bytes@)`, a function of the bytes alone.
#[verifier::external_body]
fn hash_byte_slice(bytes: &[u8]) -> (h: u64)
    ensures
        h == bytes_hash(bytes@),
{
    let mut hasher = std::collections::hash_map::DefaultHasher::new();
    bytes.hash(&mut hasher);
    hasher.finish()
}

/// The hash of a text clip: its `DefaultHasher` hash in lowercase hexadecimal.
pub fn calculate_hash(content: &str) -> (r: String)
    ensures
        r@ == hex_lower(text_hash(content@) as nat),
{
    let h = hash_str(content);
    string_from_chars(&hex_chars(h))
}

/// How many leading bytes of an image are hashed (64 KiB).
pub const HASH_SAMPLE_BYTES: usize = 65536;

/// The hash of an image clip: the `DefaultHasher` hash of its first 64 KiB of
/// pixel bytes, in lowercase hexadecimal.
pub fn calculate_hash_bytes(bytes: &[u8]) -> (r: String)
    ensures
        r@ == hex_lower(
            bytes_hash(
                if bytes@.len() > HASH_SAMPLE_BYTES {
                    bytes@.take(HASH_SAMPLE_BYTES as int)
                } else {
                    bytes@
                },
            ) as nat,
        ),
{
    let sample = if bytes.len() > HASH_SAMPLE_BYTES {
        vstd::slice::slice_subrange(bytes, 0, HASH_SAMPLE_BYTES)
    } else {
        bytes
    };
    let h = hash_byte_slice(sample);
    string_from_chars(&hex_chars(h))
}


// ---------------------------------------------------------------------------
// Image clips
// ---------------------------------------------------------------------------

/// What `image`'s `PngEncoder::new` (default compression and filter) writes
/// for RGBA8 pixels `rgba` of the given size: `Ok` of the PNG bytes, or `Err`
/// of the text of the error that `write_image` returns.
pub uninterp spec fn png_rgba8(rgba: Seq<u8>, width: u32, height: u32) -> Result<
    Seq<u8>,
    Seq<char>,
>;

/// The digit of the standard base64 alphabet for the six-bit value `v`.
pub open spec fn base64_digit(v: int) -> char {
    "ABCDEFGHIJKLMNOPQRSTUVWXYZabcdefghijklmnopqrstuvwxyz0123456789+/"@[v]
}

/// Standard base64 with padding (RFC 4648): every three bytes become four
/// digits of six bits each, and a last group of one or two bytes becomes two
/// or three digits followed by `=` padding up to four.
pub open spec fn base64_encode(b: Seq<u8>) -> Seq<char>
    decreases b.len(),
{
    if b.len() == 0 {
        seq![]
    } else if b.len() == 1 {
        seq![base64_digit(b[0] as int / 4), base64_digit((b[0] % 4) * 16), '=', '=']
    } else if b.len() == 2 {
        seq![
            base64_digit(b[0] as int / 4),
            base64_digit((b[0] % 4) * 16 + b[1] / 16),
            base64_digit((b[1] % 16) * 4),
            '=',
        ]
    } else {
        seq![
            base64_digit(b[0] as int / 4),
            base64_digit((b[0] % 4) * 16 + b[1] / 16),
            base64_digit((b[1] % 16) * 4 + b[2] / 64),
            base64_digit(b[2] as int % 64),
        ] + base64_encode(b.subrange(3, b.len() as int))
    }
}

/// Encodes RGBA8 pixels as PNG with `image::codecs::png::PngEncoder::new` over
/// a `Vec<u8>` and `ImageEncoder::write_image`, which panics unless there are
/// exactly four bytes per pixel (hence the `requires`). The contract claims
/// that the outcome, the PNG bytes or the error's text, is `png_rgba8` of the
/// arguments, and that the bytes fit in a `Vec` (at most `isize::MAX`).
#[verifier::external_body]
fn encode_png_rgba8(rgba: &[u8], width: u32, height: u32) -> (r: Result<Vec<u8>, String>)
    requires
        rgba@.len() == width * 4 * height,
    ensures
        match r {
            Ok(v) => png_rgba8(rgba@, width, height) == Ok::<Seq<u8>, Seq<char>>(v@) && v@.len()
                <= isize::MAX,
            Err(e) => png_rgba8(rgba@, width, height) == Err::<Seq<u8>, Seq<char>>(e@),
        },
{
    let mut png_bytes: Vec<u8> = Vec::new();
    let encoder = image::codecs::png::PngEncoder::new(&mut png_bytes);
    match encoder.write_image(rgba, width, height, image::ExtendedColorType::Rgba8) {
        Ok(()) => Ok(png_bytes),
        Err(e) => Err(e.to_string()),
    }
}

/// Encodes `bytes` with `base64::engine::general_purpose::STANDARD.encode`,
/// which panics when the encoded length overflows `usize` (hence the
/// `requires`). The contract claims that the result is the standard padded
/// base64 encoding of the bytes, `base64_encode(bytes@)`.
#[verifier::external_body]
fn encode_base64(bytes: &[u8]) -> (r: String)
    requires
        4 * ((bytes@.len() + 2) / 3) <= usize::MAX,
    ensures
        r@ == base64_encode(bytes@),
{
    base64::engine::general_purpose::STANDARD.encode(bytes)
}

/// Converts an image to PNG and the PNG to base64 text; an encoding failure
/// comes back as `PNG encode error: ` followed by the encoder's message.
pub fn encode_image_to_base64(img: &ImageData) -> (r: Result<String, String>)
    requires
        img.wf(),
    ensures
        match png_rgba8(img.bytes@, img.width as u32, img.height as u32) {
            Ok(png) => r is Ok && r->Ok_0@ == base64_encode(png),
            Err(e) => r is Err && r->Err_0@ == "PNG encode error: "@ + e,
        },
{
    let w = img.width as u32;
    let h = img.height as u32;
    match encode_png_rgba8(img.bytes.as_slice(), w, h) {
        Ok(png) => {
            assert(4 * ((png@.len() + 2) / 3) <= usize::MAX);
            Ok(encode_base64(png.as_slice()))
        },
        Err(e) => {
            let mut m = string_from_chars(&chars_of("PNG encode error: "));
            m.append(e.as_str());
            Err(m)
        },
    }
}

/// The preview of an image clip: `Image (W×H)`.
pub open spec fn image_preview(width: nat, height: nat) -> Seq<char> {
    "Image ("@ + decimal(width) + "×"@ + decimal(height) + ")"@
}

/// The content of an image clip: `Image W×H`.
pub open spec fn image_content(width: nat, height: nat) -> Seq<char> {
    "Image "@ + decimal(width) + "×"@ + decimal(height)
}

// ---------------------------------------------------------------------------
// The monitor's decisions
// ---------------------------------------------------------------------------

/// The state of the clipboard monitor: the hash of the last content it
/// processed, against which consecutive duplicates are recognised.
pub struct Handler {
    pub last_hash: String,
}

/// What became of a clipboard change after its text was read.
pub enum TextStep {
    /// The text gave a new clip, to be stored.
    Saved(NewClip),
    /// The text is the same as the last content processed.
    Duplicate,
    /// There was no text: the clipboard's image is to be read next.
    ReadImage,
}

/// What became of a copied image.
pub enum ImageStep {
    /// The image gave a new clip, to be stored.
    Saved(NewClip),
    /// The image is the same as the last content processed.
    Duplicate,
    /// The image could not be encoded; the message says why.
    EncodeFailed(String),
}

/// The text kept of a copied text: at most 50 KiB, cut at a character boundary.
pub open spec fn kept_text(text: Seq<char>) -> Seq<char> {
    bounded_prefix(text, MAX_CONTENT_BYTES as nat)
}

/// The hash of a kept text.
pub open spec fn text_clip_hash(kept: Seq<char>) -> Seq<char> {
    hex_lower(text_hash(kept) as nat)
}

/// How many leading bytes of `len` pixel bytes are hashed: all of them, up to
/// 64 KiB.
pub open spec fn hash_sample_len(len: nat) -> int {
    if len < HASH_SAMPLE_BYTES {
        len as int
    } else {
        HASH_SAMPLE_BYTES as int
    }
}

/// Content whose hash is `h` repeats the content last processed, whose hash
/// is `last`.
pub open spec fn is_repeat(last: Seq<char>, h: Seq<char>) -> bool {
    h == last
}

/// The clip that a kept text gives.
pub open spec fn is_text_clip(c: NewClip, kept: Seq<char>) -> bool {
    &&& c.content@ == kept
    &&& c.content_type@ == content_label(kept)
    &&& c.preview@ == preview_spec(kept, 200)
    &&& c.hash@ == text_clip_hash(kept)
    &&& c.image_base64 is None
}

/// The hash of a copied image.
pub open spec fn image_clip_hash(bytes: Seq<u8>) -> Seq<char> {
    hex_lower(
        bytes_hash(
            if bytes.len() > HASH_SAMPLE_BYTES {
                bytes.take(HASH_SAMPLE_BYTES as int)
            } else {
                bytes
            },
        ) as nat,
    )
}

impl Handler {
    /// The monitor's state at start-up, from the last hash stored: a failed
    /// read or an empty store both give the empty hash.
    pub fn new(stored: Result<Option<String>, String>) -> (r: Self)
        ensures
            match stored {
                Ok(Some(h)) => r.last_hash@ == h@,
                _ => r.last_hash@ == Seq::<char>::empty(),
            },
    {
        match stored {
            Ok(Some(h)) => Handler { last_hash: h },
            _ => Handler { last_hash: String::new() },
        }
    }

    /// A clipboard change: ignored, and the flag cleared, when the flag was
    /// set; otherwise the clipboard is to be read (`true`).
    pub fn on_clipboard_change(skip: &mut SkipFlag) -> (read: bool)
        ensures
            read == change_is_read(old(skip).skip),
            final(skip).skip == flag_after_change(old(skip).skip),
            read == !old(skip).skip,
            !final(skip).skip,
    {
        let was_set = skip.skip;
        skip.skip = false;
        !was_set
    }

    /// Processes copied text: keeps at most 50 KiB of it, and unless its hash
    /// equals the last one, remembers the hash and returns the clip.
    pub fn handle_text(&mut self, text: &str) -> (r: Option<NewClip>)
        ensures
            final(self).last_hash@ == text_clip_hash(kept_text(text@)),
            final(self).last_hash@ == hex_lower(text_hash(kept_text(text@)) as nat),
            r is None <==> is_repeat(old(self).last_hash@, text_clip_hash(kept_text(text@))),
            r is Some ==> is_text_clip(r->Some_0, kept_text(text@)),
    {
        let chars = chars_of(text);
        let k = prefix_within_bytes(&chars, MAX_CONTENT_BYTES);
        proof {
            lemma_bounded_prefix(chars@, MAX_CONTENT_BYTES as nat, k as int);
        }
        let kept = subvec(&chars, 0, k);
        assert(kept@ == kept_text(text@));
        let content = string_from_chars(&kept);
        let hash = calculate_hash(content.as_str());
        if hash == self.last_hash {
            return None;
        }
        self.last_hash = hash.clone();
        let content_type = detect_content_type(content.as_str());
        let preview = truncate_preview(content.as_str(), 200);
        Some(
            NewClip {
                content,
                content_type: content_type.to_owned(),
                preview,
                hash,
                image_base64: None,
            },
        )
    }

    /// A read of the clipboard's text: non-empty text is processed, and
    /// anything else sends the monitor on to the clipboard's image.
    pub fn after_text_read(&mut self, text: Option<&str>) -> (r: TextStep)
        ensures
            match text {
                Some(t) if t@.len() > 0 => {
                    let h = text_clip_hash(kept_text(t@));
                    &&& final(self).last_hash@ == h
                    &&& if is_repeat(old(self).last_hash@, h) {
                        r is Duplicate
                    } else {
                        r is Saved && is_text_clip(r->Saved_0, kept_text(t@))
                    }
                },
                _ => r is ReadImage && final(self).last_hash@ == old(self).last_hash@,
            },
    {
        match text {
            Some(t) => {
                if t.is_empty() {
                    TextStep::ReadImage
                } else {
                    match self.handle_text(t) {
                        Some(c) => TextStep::Saved(c),
                        None => TextStep::Duplicate,
                    }
                }
            },
            None => TextStep::ReadImage,
        }
    }

    /// Processes a copied image: unless the hash of its first 64 KiB equals
    /// the last one, remembers the hash, encodes the image as PNG in base64
    /// and returns the clip, described by its size. A repeated image is
    /// never encoded, so only a new one needs four bytes per pixel.
    pub fn handle_image(&mut self, img: &ImageData) -> (r: ImageStep)
        requires
            !is_repeat(old(self).last_hash@, image_clip_hash(img.bytes@)) ==> img.wf(),
        ensures
            final(self).last_hash@ == hex_lower(
                bytes_hash(img.bytes@.take(hash_sample_len(img.bytes@.len()))) as nat,
            ),
            ({
                let h = image_clip_hash(img.bytes@);
                &&& final(self).last_hash@ == h
                &&& if is_repeat(old(self).last_hash@, h) {
                    r is Duplicate
                } else {
                    match png_rgba8(img.bytes@, img.width as u32, img.height as u32) {
                        Ok(png) => {
                            &&& r is Saved
                            &&& r->Saved_0.content@ == image_content(
                                img.width as nat,
                                img.height as nat,
                            )
                            &&& r->Saved_0.content_type@ == "image"@
                            &&& r->Saved_0.preview@ == image_preview(
                                img.width as nat,
                                img.height as nat,
                            )
                            &&& r->Saved_0.hash@ == h
                            &&& r->Saved_0.image_base64 is Some
                            &&& r->Saved_0.image_base64->Some_0@ == base64_encode(png)
                        },
                        Err(e) => r is EncodeFailed && r->EncodeFailed_0@ == "PNG encode error: "@
                            + e,
                    }
                }
            }),
    {
        let hash = calculate_hash_bytes(img.bytes.as_slice());
        assert(img.bytes@.take(img.bytes@.len() as int) =~= img.bytes@);
        if hash == self.last_hash {
            return ImageStep::Duplicate;
        }
        self.last_hash = hash.clone();
        let png_base64 = match encode_image_to_base64(img) {
            Ok(b64) => b64,
            Err(e) => {
                return ImageStep::EncodeFailed(e);
            },
        };
        let w = decimal_chars(img.width as u64);
        let h = decimal_chars(img.height as u64);
        let times = chars_of("×");
        let preview = concat(
            &concat(&concat(&concat(&chars_of("Image ("), &w), &times), &h),
            &chars_of(")"),
        );
        let content = concat(&concat(&concat(&chars_of("Image "), &w), &times), &h);
        ImageStep::Saved(
            NewClip {
                content: string_from_chars(&content),
                content_type: string_from_chars(&chars_of("image")),
                preview: string_from_chars(&preview),
                hash,
                image_base64: Some(png_base64),
            },
        )
    }
}


// ---------------------------------------------------------------------------
// Laws
// ---------------------------------------------------------------------------

/// After the app sets the flag, the next clipboard change is ignored and the
/// one after it is read again: one write of the app skips exactly one change.
pub proof fn law_skip_exactly_one_change(flag: bool)
    ensures
        !change_is_read(flag_after_set(flag)),
        change_is_read(flag_after_change(flag_after_set(flag))),
{
}

/// Whatever the monitor held before, once it has processed a text, the same
/// text copied again is recognised as a repeat and gives no new clip.
pub proof fn law_repeated_text_is_duplicate(t: Seq<char>)
    ensures
        is_repeat(text_clip_hash(kept_text(t)), text_clip_hash(kept_text(t))),
{
}

/// Likewise for an image: once processed, the same pixels copied again are a
/// repeat.
pub proof fn law_repeated_image_is_duplicate(bytes: Seq<u8>)
    ensures
        is_repeat(image_clip_hash(bytes), image_clip_hash(bytes)),
{
}

/// The text kept of a copy is a prefix of it that fits in 50 KiB, and no
/// longer prefix fits; a text that fits is kept whole.
pub proof fn law_kept_text_is_longest_fitting_prefix(t: Seq<char>)
    ensures
        kept_text(t).is_prefix_of(t),
        utf8_len(kept_text(t)) <= MAX_CONTENT_BYTES,
        kept_text(t).len() < t.len() ==> utf8_len(t.take(kept_text(t).len() as int + 1))
            > MAX_CONTENT_BYTES,
        utf8_len(t) <= MAX_CONTENT_BYTES ==> kept_text(t) == t,
    decreases t.len(),
{
    if utf8_len(t) <= MAX_CONTENT_BYTES || t.len() == 0 {
    } else {
        let u = t.drop_last();
        law_kept_text_is_longest_fitting_prefix(u);
        let k = kept_text(u).len() as int;
        if k < u.len() {
            assert(u.take(k + 1) =~= t.take(k + 1));
        } else {
            assert(t.take(k + 1) =~= t);
        }
    }
}

/// A preview has at most `max + 3` characters, and begins with as many of the
/// text's first characters as fit.
pub proof fn law_preview_shape(t: Seq<char>, max: nat)
    ensures
        preview_spec(t, max).len() <= max + 3,
        t.len() <= max ==> preview_spec(t, max) == t,
        t.len() > max ==> t.take(max as int).is_prefix_of(preview_spec(t, max)),
{
    reveal_strlit("...");
    if t.len() > max {
        assert(preview_spec(t, max).take(max as int) =~= t.take(max as int));
    }
}

/// A clipboard change always leaves the flag cleared, so of two changes with
/// no write of the app between them the second is always read.
pub proof fn law_change_always_clears_flag(flag: bool)
    ensures
        !flag_after_change(flag),
        change_is_read(flag_after_change(flag)),
        change_is_read(flag) == !flag,
{
}

/// The hash of a text clip is the lowercase hexadecimal `DefaultHasher` hash
/// of the whole kept text: two kept texts are repeats exactly when their full
/// contents hash alike, so no part of a text is ignored.
pub proof fn law_text_hash_covers_whole_text(a: Seq<char>, b: Seq<char>)
    ensures
        text_clip_hash(a) == hex_lower(text_hash(a) as nat),
        is_repeat(text_clip_hash(a), text_clip_hash(b)) <==> text_hash(a) == text_hash(b),
{
    if is_repeat(text_clip_hash(a), text_clip_hash(b)) {
        lemma_hex_lower_injective(text_hash(a) as nat, text_hash(b) as nat);
    }
}

/// The hash of an image clip is the lowercase hexadecimal `DefaultHasher`
/// hash of its first 64 KiB of pixel bytes (all of them for a smaller image):
/// two images are repeats exactly when those samples hash alike.
pub proof fn law_image_hash_covers_first_64_kib(a: Seq<u8>, b: Seq<u8>)
    ensures
        image_clip_hash(a) == hex_lower(bytes_hash(a.take(hash_sample_len(a.len()))) as nat),
        is_repeat(image_clip_hash(a), image_clip_hash(b)) <==> bytes_hash(
            a.take(hash_sample_len(a.len())),
        ) == bytes_hash(b.take(hash_sample_len(b.len()))),
{
    assert(a.take(a.len() as int) =~= a);
    assert(b.take(b.len() as int) =~= b);
    if is_repeat(image_clip_hash(a), image_clip_hash(b)) {
        lemma_hex_lower_injective(
            bytes_hash(a.take(hash_sample_len(a.len()))) as nat,
            bytes_hash(b.take(hash_sample_len(b.len()))) as nat,
        );
    }
}

} // verus!
