//! Artwork: the stable FNV-1a fingerprints that key the on-disk thumbnail
//! index, the choice of a cover file among the images beside a track, the
//! per-folder memo of those listings, and the thumbnail index's entries.
use vstd::prelude::*;
use vstd::std_specs::hash::DefaultHasherAdditionalSpecFns;
use crate::text::{
    chars_of, contains, contains_exec, ends_with, ends_with_exec, eq_ignore_case, eq_ignore_case_exec,
    lower, lower_of, slice_of, starts_with, starts_with_exec, string_of, strip_separators,
    strip_separators_of, views,
};
use crate::scanner::{extension, stem, last_dot_of};
use crate::text::same_chars;
use crate::memo::KeyedMemo;
use crate::fs::{join_path, join_path_of};

verus! {

// ---------------------------------------------------------------------------
// FNV-1a
// ---------------------------------------------------------------------------

pub const FNV_OFFSET: u64 = 0xcbf2_9ce4_8422_2325;

pub const FNV_PRIME: u64 = 0x0000_0100_0000_01b3;

/// One FNV-1a round: xor the byte in, then multiply modulo 2^64.
pub open spec fn fnv_step(hash: u64, byte: u8) -> u64 {
    vstd::wrapping::u64_specs::wrapping_mul(hash ^ (byte as u64), FNV_PRIME)
}

/// `bytes` folded into the running hash `hash`, first byte first.
pub open spec fn fnv(hash: u64, bytes: Seq<u8>) -> u64
    decreases bytes.len(),
{
    if bytes.len() == 0 {
        hash
    } else {
        fnv_step(fnv(hash, bytes.drop_last()), bytes.last())
    }
}

/// The `count` least significant bytes of `value`, least significant first.
pub open spec fn le_bytes(value: nat, count: nat) -> Seq<u8>
    decreases count,
{
    if count == 0 {
        Seq::empty()
    } else {
        seq![(value % 256) as u8] + le_bytes(value / 256, (count - 1) as nat)
    }
}

/// Folding two pieces one after the other is folding them joined.
pub proof fn lemma_fnv_append(hash: u64, a: Seq<u8>, b: Seq<u8>)
    ensures
        fnv(hash, a + b) == fnv(fnv(hash, a), b),
    decreases b.len(),
{
    if b.len() == 0 {
        assert(a + b =~= a);
    } else {
        lemma_fnv_append(hash, a, b.drop_last());
        assert((a + b).drop_last() =~= a + b.drop_last());
        assert((a + b).last() == b.last());
    }
}

/// Folds `bytes` into the running hash.
fn fold(hash: &mut u64, bytes: &[u8])
    ensures
        *final(hash) == fnv(*old(hash), bytes@),
{
    let ghost start = *hash;
    let mut h: u64 = *hash;
    let mut i: usize = 0;
    while i < bytes.len()
        invariant
            i <= bytes.len(),
            h == fnv(start, bytes@.take(i as int)),
        decreases bytes.len() - i,
    {
        proof {
            assert(bytes@.take(i + 1).drop_last() =~= bytes@.take(i as int));
        }
        h = (h ^ (bytes[i] as u64)).wrapping_mul(FNV_PRIME);
        i += 1;
    }
    assert(bytes@.take(i as int) =~= bytes@);
    *hash = h;
}

/// The `count` least significant bytes of `value`, least significant first.
fn le_bytes_of(value: u64, count: usize) -> (r: Vec<u8>)
    ensures
        r@ == le_bytes(value as nat, count as nat),
{
    let mut r: Vec<u8> = Vec::new();
    let mut v: u64 = value;
    let mut i: usize = 0;
    while i < count
        invariant
            i <= count,
            r@ + le_bytes(v as nat, (count - i) as nat) == le_bytes(value as nat, count as nat),
        decreases count - i,
    {
        let b = (v % 256) as u8;
        proof {
            let rest = le_bytes((v / 256) as nat, (count - i - 1) as nat);
            assert(le_bytes(v as nat, (count - i) as nat) == seq![b] + rest);
            assert(r@.push(b) + rest =~= r@ + (seq![b] + rest));
        }
        r.push(b);
        v = v / 256;
        i += 1;
    }
    assert(r@ + le_bytes(v as nat, 0) =~= r@);
    r
}

/// Stable 64-bit FNV-1a over the UTF-8 bytes of `value` and then the eight
/// little-endian bytes of `stamp`. It keys the thumbnail and waveform
/// indexes, so it must not change between runs or toolchains.
pub fn fingerprint(value: &str, stamp: u64) -> (r: u64)
    ensures
        r == fnv(fnv(FNV_OFFSET, vstd::utf8::encode_utf8(value@)), le_bytes(stamp as nat, 8)),
{
    let mut hash = FNV_OFFSET;
    fold(&mut hash, value.as_bytes());
    let stamp_bytes = le_bytes_of(stamp, 8);
    fold(&mut hash, &stamp_bytes);
    hash
}

/// FNV-1a over two values: the eight bytes of `a`, then those of `b`.
pub open spec fn mixed(a: u64, b: u64) -> u64 {
    fnv(fnv(FNV_OFFSET, le_bytes(a as nat, 8)), le_bytes(b as nat, 8))
}

/// Folds a file's timestamp and its folder's fingerprint into one key.
pub fn mix(a: u64, b: u64) -> (r: u64)
    ensures
        r == mixed(a, b),
{
    let mut hash = FNV_OFFSET;
    let a_bytes = le_bytes_of(a, 8);
    fold(&mut hash, &a_bytes);
    let b_bytes = le_bytes_of(b, 8);
    fold(&mut hash, &b_bytes);
    hash
}

/// The UTF-16 encoding of one character, each code unit as two
/// little-endian bytes.
pub open spec fn utf16_char_bytes(c: char) -> Seq<u8> {
    let u = c as u32;
    if u < 0x10000 {
        le_bytes(u as nat, 2)
    } else {
        let v = (u - 0x10000) as nat;
        le_bytes(0xd800 + v / 0x400, 2) + le_bytes(0xdc00 + v % 0x400, 2)
    }
}

/// The UTF-16 encoding of `s`, each code unit as two little-endian bytes.
pub open spec fn utf16_bytes(s: Seq<char>) -> Seq<u8>
    decreases s.len(),
{
    if s.len() == 0 {
        Seq::empty()
    } else {
        utf16_bytes(s.drop_last()) + utf16_char_bytes(s.last())
    }
}

fn utf16_char_bytes_of(c: char) -> (r: Vec<u8>)
    ensures
        r@ == utf16_char_bytes(c),
{
    let u = c as u32;
    if u < 0x10000 {
        le_bytes_of(u as u64, 2)
    } else {
        let v = u - 0x10000;
        assert(v < 0x100000) by {
            assert((c as u32) <= 0x10ffff);
        }
        let mut r = le_bytes_of((0xd800 + v / 0x400) as u64, 2);
        let lo = le_bytes_of((0xdc00 + v % 0x400) as u64, 2);
        let ghost hi_view = r@;
        assert(lo@.len() == 2) by {
            reveal_with_fuel(le_bytes, 3);
        }
        r.push(lo[0]);
        r.push(lo[1]);
        assert(r@ =~= hi_view + lo@);
        r
    }
}

/// The FNV-1a hash of a path's name, folded code unit by code unit over its
/// UTF-16 encoding.
pub fn fingerprint_path(path: &str) -> (r: u64)
    ensures
        r == fnv(FNV_OFFSET, utf16_bytes(path@)),
{
    let chars = chars_of(path);
    let mut bytes: Vec<u8> = Vec::new();
    let mut i: usize = 0;
    while i < chars.len()
        invariant
            i <= chars.len(),
            chars@ == path@,
            bytes@ == utf16_bytes(chars@.take(i as int)),
        decreases chars.len() - i,
    {
        let unit_bytes = utf16_char_bytes_of(chars[i]);
        proof {
            assert(chars@.take(i + 1).drop_last() =~= chars@.take(i as int));
        }
        let mut k: usize = 0;
        let ghost before = bytes@;
        while k < unit_bytes.len()
            invariant
                k <= unit_bytes.len(),
                bytes@ == before + unit_bytes@.take(k as int),
            decreases unit_bytes.len() - k,
        {
            bytes.push(unit_bytes[k]);
            k += 1;
            assert(bytes@ =~= before + unit_bytes@.take(k as int));
        }
        assert(unit_bytes@.take(k as int) =~= unit_bytes@);
        i += 1;
    }
    assert(chars@.take(i as int) =~= path@);
    let mut hash = FNV_OFFSET;
    fold(&mut hash, &bytes);
    hash
}


// ---------------------------------------------------------------------------
// Images beside the audio
// ---------------------------------------------------------------------------

/// File stems that mean "this is the album cover", most specific first.
pub open spec fn cover_file_stems() -> Seq<Seq<char>> {
    seq![
        "cover"@, "folder"@, "front"@, "album"@, "albumart"@, "album art"@, "artwork"@,
        "folder_art"@, "cover_art"@, "thumb"@,
    ]
}

/// The extensions of image files worth reading, in lower case.
pub open spec fn cover_file_extensions() -> Seq<Seq<char>> {
    seq!["jpg"@, "jpeg"@, "png"@, "webp"@, "bmp"@, "gif"@, "tif"@, "tiff"@]
}

/// Stems that clearly are not the front cover (back covers, disc scans).
pub open spec fn non_cover_stems() -> Seq<Seq<char>> {
    seq![
        "back"@, "cd"@, "disc"@, "disk"@, "inlay"@, "spine"@, "tray"@, "inside"@, "rear"@,
        "booklet"@,
    ]
}

/// One entry of a folder listing: its full path, its file name, whether it
/// is a regular file, its size and its modification time in seconds.
pub struct FolderEntry {
    pub path: String,
    pub name: String,
    pub is_file: bool,
    pub len: u64,
    pub modified_secs: u64,
}

/// An image beside the audio that could be its cover.
pub struct FolderImage {
    pub path: String,
    pub name: String,
    pub len: u64,
    pub modified_secs: u64,
}

/// Path, file name, size and modification time of an image.
pub type ImageView = (Seq<char>, Seq<char>, u64, u64);

pub open spec fn image_view(i: FolderImage) -> ImageView {
    (i.path@, i.name@, i.len, i.modified_secs)
}

pub open spec fn images_view(s: Seq<FolderImage>) -> Seq<ImageView> {
    Seq::new(s.len(), |k: int| image_view(s[k]))
}

/// What one look at a folder tells: the images in it that could be a
/// cover, in a fixed order, and a fingerprint of those files.
pub struct FolderArt {
    pub images: Vec<FolderImage>,
    pub fingerprint: u64,
}

/// `stem` is `non`, or `non` joined to something by `-`, `_` or a space.
pub open spec fn names_non_cover(stem: Seq<char>, non: Seq<char>) -> bool {
    ||| stem =~= non
    ||| starts_with(stem, non.push('-'))
    ||| starts_with(stem, non.push('_'))
    ||| starts_with(stem, non.push(' '))
    ||| ends_with(stem, seq!['-'] + non)
    ||| ends_with(stem, seq!['_'] + non)
    ||| ends_with(stem, seq![' '] + non)
}

pub open spec fn is_non_cover(stem: Seq<char>) -> bool {
    exists|k: int| 0 <= k < non_cover_stems().len() && names_non_cover(stem, #[trigger] non_cover_stems()[k])
}

/// A regular file with an image extension whose lower-cased stem does not
/// name a back cover or a disc.
pub open spec fn is_cover_candidate(e: FolderEntry) -> bool {
    &&& e.is_file
    &&& match extension(e.name@) {
        Some(x) => cover_file_extensions().contains(lower(x)),
        None => false,
    }
    &&& !is_non_cover(lower(stem(e.name@)))
}

/// The listing's candidate images, in listing order.
pub open spec fn candidates(entries: Seq<FolderEntry>) -> Seq<ImageView>
    decreases entries.len(),
{
    if entries.len() == 0 {
        Seq::empty()
    } else {
        let rest = candidates(entries.drop_last());
        let e = entries.last();
        if is_cover_candidate(e) {
            rest.push((e.path@, e.name@, e.len, e.modified_secs))
        } else {
            rest
        }
    }
}

/// Lexicographic order of character sequences by code point, which is the
/// order of their UTF-8 bytes.
pub open spec fn chars_lt(a: Seq<char>, b: Seq<char>) -> bool
    decreases a.len(),
{
    if b.len() == 0 {
        false
    } else if a.len() == 0 {
        true
    } else if a[0] != b[0] {
        (a[0] as u32) < (b[0] as u32)
    } else {
        chars_lt(a.drop_first(), b.drop_first())
    }
}

/// No sequence comes before itself.
pub proof fn lemma_chars_lt_irreflexive(a: Seq<char>)
    ensures
        !chars_lt(a, a),
    decreases a.len(),
{
    if a.len() > 0 {
        lemma_chars_lt_irreflexive(a.drop_first());
    }
}

/// Coming before is transitive.
pub proof fn lemma_chars_lt_transitive(a: Seq<char>, b: Seq<char>, c: Seq<char>)
    requires
        chars_lt(a, b),
        chars_lt(b, c),
    ensures
        chars_lt(a, c),
    decreases a.len(),
{
    if a.len() > 0 && b.len() > 0 && c.len() > 0 && a[0] == b[0] && b[0] == c[0] {
        lemma_chars_lt_transitive(a.drop_first(), b.drop_first(), c.drop_first());
    }
}

/// Of two different sequences, one comes before the other.
pub proof fn lemma_chars_lt_total(a: Seq<char>, b: Seq<char>)
    requires
        a != b,
    ensures
        chars_lt(a, b) || chars_lt(b, a),
    decreases a.len(),
{
    if a.len() == 0 {
        assert(b.len() > 0) by {
            if b.len() == 0 {
                assert(a =~= b);
            }
        }
    } else if b.len() > 0 && a[0] == b[0] {
        if a.drop_first() == b.drop_first() {
            assert(a =~= seq![a[0]] + a.drop_first());
            assert(b =~= seq![b[0]] + b.drop_first());
        }
        lemma_chars_lt_total(a.drop_first(), b.drop_first());
    } else if b.len() > 0 {
        vstd::utf8::char_u32_cast(a[0], a[0] as u32);
        vstd::utf8::char_u32_cast(b[0], b[0] as u32);
        assert((a[0] as u32) != (b[0] as u32));
    }
}

/// The listing order: by path, then size, then modification time.
pub open spec fn image_le(a: ImageView, b: ImageView) -> bool {
    ||| chars_lt(a.0, b.0)
    ||| (a.0 =~= b.0 && (a.2 < b.2 || (a.2 == b.2 && a.3 <= b.3)))
}

/// `s` with `x` placed after every image not after it.
pub open spec fn insert_image(s: Seq<ImageView>, x: ImageView) -> Seq<ImageView>
    decreases s.len(),
{
    if s.len() == 0 || image_le(s.last(), x) {
        s.push(x)
    } else {
        insert_image(s.drop_last(), x).push(s.last())
    }
}

/// `s` in listing order.
pub open spec fn sort_images(s: Seq<ImageView>) -> Seq<ImageView>
    decreases s.len(),
{
    if s.len() == 0 {
        s
    } else {
        insert_image(sort_images(s.drop_last()), s.last())
    }
}

/// One image folded into a folder fingerprint: the hash of its path, then
/// its size, then its modification time, eight little-endian bytes each.
pub open spec fn image_fold(hash: u64, i: ImageView) -> u64 {
    fnv(
        fnv(fnv(hash, le_bytes(fnv(FNV_OFFSET, utf16_bytes(i.0)) as nat, 8)), le_bytes(i.2 as nat, 8)),
        le_bytes(i.3 as nat, 8),
    )
}

/// The fingerprint of a folder's images, folded in order.
pub open spec fn images_fingerprint(s: Seq<ImageView>) -> u64
    decreases s.len(),
{
    if s.len() == 0 {
        FNV_OFFSET
    } else {
        image_fold(images_fingerprint(s.drop_last()), s.last())
    }
}

/// The fingerprint of a folder: 0 when it holds no candidate images, else
/// its images folded in order.
pub open spec fn folder_fingerprint(s: Seq<ImageView>) -> u64 {
    if s.len() == 0 {
        0
    } else {
        images_fingerprint(s)
    }
}

fn with_suffix(v: &[char], c: char) -> (r: Vec<char>)
    ensures
        r@ == v@.push(c),
{
    let mut r = slice_of(v, 0, v.len());
    assert(r@ =~= v@);
    r.push(c);
    r
}

fn with_prefix(c: char, v: &[char]) -> (r: Vec<char>)
    ensures
        r@ == seq![c] + v@,
{
    let mut r: Vec<char> = Vec::new();
    r.push(c);
    let mut i: usize = 0;
    while i < v.len()
        invariant
            i <= v.len(),
            r@ == seq![c] + v@.take(i as int),
        decreases v.len() - i,
    {
        r.push(v[i]);
        i += 1;
        assert(r@ =~= seq![c] + v@.take(i as int));
    }
    assert(v@.take(i as int) =~= v@);
    r
}

fn names_non_cover_exec(stem: &[char], non: &[char]) -> (r: bool)
    ensures
        r == names_non_cover(stem@, non@),
{
    same_chars(stem, non) || starts_with_exec(stem, &with_suffix(non, '-'))
        || starts_with_exec(stem, &with_suffix(non, '_')) || starts_with_exec(
        stem,
        &with_suffix(non, ' '),
    ) || ends_with_exec(stem, &with_prefix('-', non)) || ends_with_exec(
        stem,
        &with_prefix('_', non),
    ) || ends_with_exec(stem, &with_prefix(' ', non))
}

fn is_non_cover_exec(stem: &[char]) -> (r: bool)
    ensures
        r == is_non_cover(stem@),
{
    let nons = vec![
        chars_of("back"), chars_of("cd"), chars_of("disc"), chars_of("disk"), chars_of("inlay"),
        chars_of("spine"), chars_of("tray"), chars_of("inside"), chars_of("rear"),
        chars_of("booklet"),
    ];
    assert(views(nons@) =~= non_cover_stems());
    let mut k: usize = 0;
    while k < nons.len()
        invariant
            k <= nons.len(),
            views(nons@) == non_cover_stems(),
            forall|j: int| 0 <= j < k ==> !names_non_cover(stem@, #[trigger] non_cover_stems()[j]),
        decreases nons.len() - k,
    {
        if names_non_cover_exec(stem, &nons[k]) {
            assert(names_non_cover(stem@, non_cover_stems()[k as int]));
            return true;
        }
        k += 1;
    }
    false
}

fn is_image_extension(ext: &[char]) -> (r: bool)
    ensures
        r == cover_file_extensions().contains(ext@),
{
    let known = vec![
        chars_of("jpg"), chars_of("jpeg"), chars_of("png"), chars_of("webp"), chars_of("bmp"),
        chars_of("gif"), chars_of("tif"), chars_of("tiff"),
    ];
    assert(views(known@) =~= cover_file_extensions());
    let mut i: usize = 0;
    while i < known.len()
        invariant
            i <= known.len(),
            views(known@) == cover_file_extensions(),
            forall|j: int| 0 <= j < i ==> cover_file_extensions()[j] != ext@,
        decreases known.len() - i,
    {
        if same_chars(&known[i], ext) {
            assert(cover_file_extensions()[i as int] == ext@);
            return true;
        }
        i += 1;
    }
    false
}

fn is_cover_candidate_exec(e: &FolderEntry) -> (r: bool)
    ensures
        r == is_cover_candidate(*e),
{
    if !e.is_file {
        return false;
    }
    let name = chars_of(e.name.as_str());
    let k = match last_dot_of(&name) {
        Some(k) => k,
        None => return false,
    };
    if k == 0 {
        return false;
    }
    assert(k < name.len());
    let ext = lower_of(&slice_of(&name, k + 1, name.len()));
    if !is_image_extension(&ext) {
        return false;
    }
    let stem_chars = lower_of(&slice_of(&name, 0, k));
    !is_non_cover_exec(&stem_chars)
}

/// Whether `a` comes before `b` in code point order.
pub(crate) fn chars_lt_exec(a: &[char], b: &[char]) -> (r: bool)
    ensures
        r == chars_lt(a@, b@),
{
    let mut i: usize = 0;
    assert(a@.skip(0) =~= a@);
    assert(b@.skip(0) =~= b@);
    while i < a.len() && i < b.len()
        invariant
            i <= a.len(),
            i <= b.len(),
            chars_lt(a@, b@) == chars_lt(a@.skip(i as int), b@.skip(i as int)),
        decreases a.len() - i,
    {
        assert(a@.skip(i as int)[0] == a@[i as int]);
        assert(b@.skip(i as int)[0] == b@[i as int]);
        if a[i] != b[i] {
            return (a[i] as u32) < (b[i] as u32);
        }
        proof {
            assert(a@.skip(i as int).drop_first() =~= a@.skip(i + 1));
            assert(b@.skip(i as int).drop_first() =~= b@.skip(i + 1));
        }
        i += 1;
    }
    assert(a@.skip(i as int).len() == a.len() - i);
    assert(b@.skip(i as int).len() == b.len() - i);
    i < b.len()
}

fn image_le_exec(a: &FolderImage, b: &FolderImage) -> (r: bool)
    ensures
        r == image_le(image_view(*a), image_view(*b)),
{
    let pa = chars_of(a.path.as_str());
    let pb = chars_of(b.path.as_str());
    if chars_lt_exec(&pa, &pb) {
        return true;
    }
    if !same_chars(&pa, &pb) {
        return false;
    }
    a.len < b.len || (a.len == b.len && a.modified_secs <= b.modified_secs)
}

proof fn lemma_insert_image_at(s: Seq<ImageView>, x: ImageView, j: int)
    requires
        0 <= j <= s.len(),
        forall|k: int| j <= k < s.len() ==> !image_le(#[trigger] s[k], x),
        j == 0 || image_le(s[j - 1], x),
    ensures
        insert_image(s, x) =~= s.take(j).push(x) + s.skip(j),
    decreases s.len(),
{
    if s.len() == 0 || image_le(s.last(), x) {
        if j < s.len() {
            assert(!image_le(s[s.len() - 1], x));
        }
        assert(s.skip(j) =~= Seq::<ImageView>::empty());
        assert(s.take(j) =~= s);
    } else {
        lemma_insert_image_at(s.drop_last(), x, j);
        assert(s.drop_last().take(j) =~= s.take(j));
        assert(s.drop_last().skip(j).push(s.last()) =~= s.skip(j));
    }
}

fn insert_image_sorted(v: &mut Vec<FolderImage>, x: FolderImage)
    ensures
        images_view(final(v)@) == insert_image(images_view(old(v)@), image_view(x)),
{
    let mut j = v.len();
    while j > 0 && !image_le_exec(&v[j - 1], &x)
        invariant
            j <= v.len(),
            forall|k: int| j <= k < v.len() ==> !image_le(image_view(#[trigger] v@[k]), image_view(x)),
        decreases j,
    {
        j -= 1;
    }
    let ghost xv = image_view(x);
    let ghost before = images_view(v@);
    proof {
        assert forall|k: int| j <= k < before.len() implies !image_le(#[trigger] before[k], xv) by {
            assert(before[k] == image_view(v@[k]));
        }
        lemma_insert_image_at(before, xv, j as int);
    }
    v.insert(j, x);
    assert(images_view(v@) =~= before.take(j as int).push(xv) + before.skip(j as int));
}

fn fold_image(hash: &mut u64, image: &FolderImage)
    ensures
        *final(hash) == image_fold(*old(hash), image_view(*image)),
{
    let path_hash = fingerprint_path(image.path.as_str());
    let path_bytes = le_bytes_of(path_hash, 8);
    fold(hash, &path_bytes);
    let len_bytes = le_bytes_of(image.len, 8);
    fold(hash, &len_bytes);
    let time_bytes = le_bytes_of(image.modified_secs, 8);
    fold(hash, &time_bytes);
}

/// What a folder listing says about artwork: the candidate cover images,
/// ordered by path (then size and time) so the choice is the same on every
/// run whatever order the directory read gave, and a fingerprint of them
/// that changes when any candidate appears, disappears or is rewritten (0
/// when there are none).
pub fn read_folder_art(entries: &[FolderEntry]) -> (r: FolderArt)
    ensures
        images_view(r.images@) == sort_images(candidates(entries@)),
        r.fingerprint == folder_fingerprint(images_view(r.images@)),
{
    let mut images: Vec<FolderImage> = Vec::new();
    let mut i: usize = 0;
    while i < entries.len()
        invariant
            i <= entries.len(),
            images_view(images@) == sort_images(candidates(entries@.take(i as int))),
        decreases entries.len() - i,
    {
        proof {
            assert(entries@.take(i + 1).drop_last() =~= entries@.take(i as int));
        }
        let e = &entries[i];
        if is_cover_candidate_exec(e) {
            let image = FolderImage {
                path: e.path.clone(),
                name: e.name.clone(),
                len: e.len,
                modified_secs: e.modified_secs,
            };
            let ghost prev = candidates(entries@.take(i as int));
            proof {
                assert(prev.push(image_view(image)).drop_last() =~= prev);
            }
            insert_image_sorted(&mut images, image);
        }
        i += 1;
    }
    assert(entries@.take(i as int) =~= entries@);
    let mut fingerprint = FNV_OFFSET;
    let mut k: usize = 0;
    while k < images.len()
        invariant
            k <= images.len(),
            fingerprint == images_fingerprint(images_view(images@).take(k as int)),
        decreases images.len() - k,
    {
        proof {
            assert(images_view(images@).take(k + 1).drop_last() =~= images_view(images@).take(
                k as int,
            ));
        }
        fold_image(&mut fingerprint, &images[k]);
        k += 1;
    }
    assert(images_view(images@).take(k as int) =~= images_view(images@));
    if images.len() == 0 {
        fingerprint = 0;
    }
    FolderArt { images, fingerprint }
}


// ---------------------------------------------------------------------------
// Choosing the cover
// ---------------------------------------------------------------------------

/// Whether the file `name` is named `wanted`: its stem equals it up to ASCII
/// case, or does once `-`, `_` and spaces are dropped from both.
pub open spec fn stem_matches_spec(name: Seq<char>, wanted: Seq<char>) -> bool {
    let c = stem(name);
    eq_ignore_case(c, wanted) || eq_ignore_case(strip_separators(c), strip_separators(wanted))
}

/// The file names of a folder's images.
pub open spec fn image_names(images: Seq<FolderImage>) -> Seq<Seq<char>> {
    Seq::new(images.len(), |k: int| images[k].name@)
}

/// The first image at or after `i` named `wanted`.
pub open spec fn first_match(names: Seq<Seq<char>>, wanted: Seq<char>, i: int) -> Option<int>
    decreases names.len() - i,
{
    if i < 0 || i >= names.len() {
        None
    } else if stem_matches_spec(names[i], wanted) {
        Some(i)
    } else {
        first_match(names, wanted, i + 1)
    }
}

/// The first image named after the first preferred cover stem, at or after
/// the `k`-th, that any image is named after.
pub open spec fn preferred_match(names: Seq<Seq<char>>, k: int) -> Option<int>
    decreases cover_file_stems().len() - k,
{
    if k < 0 || k >= cover_file_stems().len() {
        None
    } else {
        match first_match(names, cover_file_stems()[k], 0) {
            Some(i) => Some(i),
            None => preferred_match(names, k + 1),
        }
    }
}

/// A stem that says "cover" in one of the usual ways, once lower-cased and
/// stripped of `-`, `_` and spaces.
pub open spec fn is_cover_keyword_spec(stem: Seq<char>) -> bool {
    let norm = strip_separators(lower(stem));
    ||| contains(norm, "cover"@)
    ||| contains(norm, "front"@)
    ||| contains(norm, "folder"@)
    ||| contains(norm, "albumart"@)
    ||| contains(norm, "artwork"@)
    ||| exists|k: int|
        0 <= k < cover_file_stems().len() && norm =~= strip_separators(
            #[trigger] cover_file_stems()[k],
        )
}

/// How strongly a lower-cased stem says "front cover, full size".
pub open spec fn keyword_score(s: Seq<char>) -> int {
    (if contains(s, "large"@) { 10int } else { 0 }) + (if contains(s, "front"@) { 8int } else { 0 })
        + (if contains(s, "cover"@) { 6int } else { 0 }) + (if contains(s, "folder"@) { 4int } else { 0 })
        + (if contains(s, "albumart"@) { 3int } else { 0 }) - (if contains(s, "small"@) { 10int } else { 0 })
}

pub open spec fn keyword_at(names: Seq<Seq<char>>, i: int) -> bool {
    is_cover_keyword_spec(stem(names[i]))
}

pub open spec fn score_at(names: Seq<Seq<char>>, i: int) -> int {
    keyword_score(lower(stem(names[i])))
}

/// Among the first `n` images, the first of those with a cover keyword
/// whose score no other reaches.
pub open spec fn best_keyword(names: Seq<Seq<char>>, n: int) -> Option<int>
    decreases n,
{
    if n <= 0 {
        None
    } else {
        let b = best_keyword(names, n - 1);
        let c = n - 1;
        if keyword_at(names, c) && (b is None || score_at(names, c) > score_at(names, b->0)) {
            Some(c)
        } else {
            b
        }
    }
}

/// The cover among a folder's images, tried in this order: the image named
/// after the track, the first preferred cover name, the best-scored cover
/// keyword, the image named after the folder, and the folder's only image.
pub open spec fn cover_choice(
    names: Seq<Seq<char>>,
    audio_name: Option<Seq<char>>,
    folder_name: Option<Seq<char>>,
) -> Option<int> {
    let by_track = match audio_name {
        Some(a) => first_match(names, stem(a), 0),
        None => None,
    };
    let by_folder = match folder_name {
        Some(f) => first_match(names, f, 0),
        None => None,
    };
    if names.len() == 0 {
        None
    } else if by_track is Some {
        by_track
    } else if preferred_match(names, 0) is Some {
        preferred_match(names, 0)
    } else if best_keyword(names, names.len() as int) is Some {
        best_keyword(names, names.len() as int)
    } else if by_folder is Some {
        by_folder
    } else if names.len() == 1 {
        Some(0)
    } else {
        None
    }
}

/// An image named after the track comes first: whatever preferred cover
/// names, keywords or folder-named images the folder also holds, when some
/// image's stem matches the audio file's stem, the cover chosen is the first
/// such image.
pub proof fn an_image_named_after_the_track_wins(
    names: Seq<Seq<char>>,
    audio_name: Seq<char>,
    folder_name: Option<Seq<char>>,
    j: int,
)
    requires
        0 <= j < names.len(),
        stem_matches_spec(names[j], stem(audio_name)),
        forall|k: int| 0 <= k < j ==> !stem_matches_spec(#[trigger] names[k], stem(audio_name)),
    ensures
        cover_choice(names, Some(audio_name), folder_name) == Some(j),
{
    lemma_first_match_from(names, stem(audio_name), j);
}

/// What `first_match` finds from `i` on: the first image at or after `i`
/// whose stem matches, or nothing when none does.
proof fn lemma_first_match_is_first(names: Seq<Seq<char>>, wanted: Seq<char>, i: int)
    requires
        0 <= i,
    ensures
        match first_match(names, wanted, i) {
            Some(j) => i <= j < names.len() && stem_matches_spec(names[j], wanted) && forall|k: int|
                i <= k < j ==> !stem_matches_spec(#[trigger] names[k], wanted),
            None => forall|k: int| i <= k < names.len() ==> !stem_matches_spec(#[trigger] names[k], wanted),
        },
    decreases names.len() - i,
{
    if i < names.len() && !stem_matches_spec(names[i], wanted) {
        lemma_first_match_is_first(names, wanted, i + 1);
    }
}

/// What `preferred_match` finds from the `k`-th preferred stem on: the
/// first image named after the earliest of those stems that any image is
/// named after, or nothing when no image is named after any of them.
proof fn lemma_preferred_is_earliest(names: Seq<Seq<char>>, k: int)
    requires
        0 <= k,
    ensures
        match preferred_match(names, k) {
            Some(c) => exists|p: int|
                k <= p < cover_file_stems().len() && first_match(names, #[trigger] cover_file_stems()[p], 0)
                    == Some(c) && forall|q: int|
                    k <= q < p ==> first_match(names, #[trigger] cover_file_stems()[q], 0) is None,
            None => forall|p: int|
                k <= p < cover_file_stems().len() ==> first_match(names, #[trigger] cover_file_stems()[p], 0) is None,
        },
    decreases cover_file_stems().len() - k,
{
    if k < cover_file_stems().len() {
        lemma_preferred_is_earliest(names, k + 1);
        if first_match(names, cover_file_stems()[k], 0) is Some {
            assert(first_match(names, cover_file_stems()[k], 0) == preferred_match(names, k));
        }
    }
}

/// The cover is chosen in the documented order. An image named after the
/// track wins; failing that, among the preferred cover names (`cover`,
/// `folder`, `front`, ...) the earliest that some image is named after, and
/// the first image so named; failing that, the cover-keyword image with the
/// highest score (the first of equals); failing that, the first image named
/// after the folder; failing all of those, the folder's only image, if it has
/// exactly one. Nothing is chosen from an empty folder.
pub proof fn the_cover_is_chosen_in_the_documented_order(
    names: Seq<Seq<char>>,
    audio_name: Option<Seq<char>>,
    folder_name: Option<Seq<char>>,
)
    ensures
        ({
            let choice = cover_choice(names, audio_name, folder_name);
            let track_named = audio_name matches Some(a) && exists|j: int|
                0 <= j < names.len() && stem_matches_spec(#[trigger] names[j], stem(a));
            let preferred_named = exists|p: int, j: int|
                0 <= p < cover_file_stems().len() && 0 <= j < names.len() && stem_matches_spec(
                    #[trigger] names[j],
                    #[trigger] cover_file_stems()[p],
                );
            let keyworded = exists|j: int| 0 <= j < names.len() && #[trigger] keyword_at(names, j);
            let folder_named = folder_name matches Some(f) && exists|j: int|
                0 <= j < names.len() && stem_matches_spec(#[trigger] names[j], f);
            &&& names.len() == 0 ==> choice is None
            &&& choice matches Some(c) ==> 0 <= c < names.len()
            &&& track_named ==> (audio_name matches Some(a) && choice matches Some(c) && stem_matches_spec(
                names[c],
                stem(a),
            ) && forall|k: int| 0 <= k < c ==> !stem_matches_spec(#[trigger] names[k], stem(a)))
            &&& !track_named && preferred_named ==> (choice matches Some(c) && exists|p: int|
                0 <= p < cover_file_stems().len() && stem_matches_spec(names[c], #[trigger] cover_file_stems()[p])
                    && (forall|k: int| 0 <= k < c ==> !stem_matches_spec(#[trigger] names[k], cover_file_stems()[p]))
                    && forall|q: int, k: int|
                    0 <= q < p && 0 <= k < names.len() ==> !stem_matches_spec(
                        #[trigger] names[k],
                        #[trigger] cover_file_stems()[q],
                    ))
            &&& !track_named && !preferred_named && keyworded ==> (choice matches Some(c) && keyword_at(names, c)
                && (forall|j: int|
                0 <= j < names.len() && #[trigger] keyword_at(names, j) ==> score_at(names, j) <= score_at(
                    names,
                    c,
                )) && forall|j: int|
                0 <= j < c && #[trigger] keyword_at(names, j) ==> score_at(names, j) < score_at(names, c))
            &&& !track_named && !preferred_named && !keyworded && folder_named ==> (folder_name matches Some(f)
                && choice matches Some(c) && stem_matches_spec(names[c], f) && forall|k: int|
                0 <= k < c ==> !stem_matches_spec(#[trigger] names[k], f))
            &&& !track_named && !preferred_named && !keyworded && !folder_named ==> choice == if names.len()
                == 1 {
                Some(0int)
            } else {
                None
            }
        }),
{
    if let Some(a) = audio_name {
        lemma_first_match_is_first(names, stem(a), 0);
    }
    if let Some(f) = folder_name {
        lemma_first_match_is_first(names, f, 0);
    }
    lemma_preferred_is_earliest(names, 0);
    best_keyword_is_first_highest(names, names.len() as int);
    let track_named = audio_name matches Some(a) && exists|j: int|
        0 <= j < names.len() && stem_matches_spec(#[trigger] names[j], stem(a));
    let preferred_named = exists|p: int, j: int|
        0 <= p < cover_file_stems().len() && 0 <= j < names.len() && stem_matches_spec(
            #[trigger] names[j],
            #[trigger] cover_file_stems()[p],
        );
    match preferred_match(names, 0) {
        Some(c) => {
            let p = choose|p: int|
                0 <= p < cover_file_stems().len() && first_match(names, #[trigger] cover_file_stems()[p], 0)
                    == Some(c) && forall|q: int|
                    0 <= q < p ==> first_match(names, #[trigger] cover_file_stems()[q], 0) is None;
            lemma_first_match_is_first(names, cover_file_stems()[p], 0);
            assert forall|q: int, k: int|
                0 <= q < p && 0 <= k < names.len() implies !stem_matches_spec(
                    #[trigger] names[k],
                    #[trigger] cover_file_stems()[q],
                ) by {
                lemma_first_match_is_first(names, cover_file_stems()[q], 0);
            }
            assert(preferred_named);
        },
        None => {
            assert forall|p: int, j: int|
                0 <= p < cover_file_stems().len() && 0 <= j < names.len() implies !stem_matches_spec(
                    #[trigger] names[j],
                    #[trigger] cover_file_stems()[p],
                ) by {
                lemma_first_match_is_first(names, cover_file_stems()[p], 0);
            }
            assert(!preferred_named);
        },
    }
}

proof fn lemma_first_match_from(names: Seq<Seq<char>>, wanted: Seq<char>, i: int)
    requires
        0 <= i <= names.len(),
        forall|j: int| 0 <= j < i ==> !stem_matches_spec(#[trigger] names[j], wanted),
    ensures
        first_match(names, wanted, 0) == first_match(names, wanted, i),
    decreases i,
{
    if i > 0 {
        lemma_first_match_from(names, wanted, i - 1);
    }
}

proof fn lemma_first_match_bound(names: Seq<Seq<char>>, wanted: Seq<char>, i: int)
    ensures
        match first_match(names, wanted, i) {
            Some(j) => 0 <= j < names.len(),
            None => true,
        },
    decreases names.len() - i,
{
    if 0 <= i < names.len() && !stem_matches_spec(names[i], wanted) {
        lemma_first_match_bound(names, wanted, i + 1);
    }
}

proof fn lemma_preferred_from(names: Seq<Seq<char>>, k: int)
    requires
        0 <= k <= cover_file_stems().len(),
        forall|j: int| 0 <= j < k ==> first_match(names, #[trigger] cover_file_stems()[j], 0) is None,
    ensures
        preferred_match(names, 0) == preferred_match(names, k),
    decreases k,
{
    if k > 0 {
        lemma_preferred_from(names, k - 1);
    }
}

proof fn lemma_preferred_bound(names: Seq<Seq<char>>, k: int)
    ensures
        match preferred_match(names, k) {
            Some(j) => 0 <= j < names.len(),
            None => true,
        },
    decreases cover_file_stems().len() - k,
{
    if 0 <= k < cover_file_stems().len() {
        lemma_first_match_bound(names, cover_file_stems()[k], 0);
        lemma_preferred_bound(names, k + 1);
    }
}

proof fn lemma_best_keyword_bound(names: Seq<Seq<char>>, n: int)
    ensures
        match best_keyword(names, n) {
            Some(j) => 0 <= j < n,
            None => true,
        },
    decreases n,
{
    if n > 0 {
        lemma_best_keyword_bound(names, n - 1);
    }
}

/// The chosen keyword image scores highest, and no image before it scores
/// as high.
pub proof fn best_keyword_is_first_highest(names: Seq<Seq<char>>, n: int)
    requires
        0 <= n <= names.len(),
    ensures
        match best_keyword(names, n) {
            Some(b) => {
                &&& 0 <= b < n
                &&& keyword_at(names, b)
                &&& forall|j: int| 0 <= j < n && keyword_at(names, j) ==> score_at(names, j) <= score_at(names, b)
                &&& forall|j: int| 0 <= j < b && keyword_at(names, j) ==> score_at(names, j) < score_at(names, b)
            },
            None => forall|j: int| 0 <= j < n ==> !keyword_at(names, j),
        },
    decreases n,
{
    if n > 0 {
        best_keyword_is_first_highest(names, n - 1);
    }
}

/// A file's stem as `Path::file_stem` gives it.
pub fn stem_of(name: &[char]) -> (r: Vec<char>)
    ensures
        r@ == stem(name@),
{
    match last_dot_of(name) {
        Some(k) => {
            if k == 0 {
                let r = slice_of(name, 0, name.len());
                assert(r@ =~= name@);
                r
            } else {
                slice_of(name, 0, k)
            }
        },
        None => {
            let r = slice_of(name, 0, name.len());
            assert(r@ =~= name@);
            r
        },
    }
}

/// Whether the file `name` is named `wanted`, ignoring ASCII case, `-`, `_`
/// and spaces.
pub fn stem_matches(name: &str, wanted: &str) -> (r: bool)
    ensures
        r == stem_matches_spec(name@, wanted@),
{
    stem_matches_chars(&chars_of(name), &chars_of(wanted))
}

fn stem_matches_chars(name: &[char], wanted: &[char]) -> (r: bool)
    ensures
        r == stem_matches_spec(name@, wanted@),
{
    let c = stem_of(name);
    eq_ignore_case_exec(&c, wanted) || eq_ignore_case_exec(
        &strip_separators_of(&c),
        &strip_separators_of(wanted),
    )
}

fn first_match_exec(images: &[FolderImage], wanted: &[char]) -> (r: Option<usize>)
    ensures
        match first_match(image_names(images@), wanted@, 0) {
            Some(i) => r == Some(i as usize),
            None => r is None,
        },
{
    let ghost names = image_names(images@);
    let mut i: usize = 0;
    while i < images.len()
        invariant
            i <= images.len(),
            names == image_names(images@),
            forall|j: int| 0 <= j < i ==> !stem_matches_spec(#[trigger] names[j], wanted@),
        decreases images.len() - i,
    {
        let name = chars_of(images[i].name.as_str());
        if stem_matches_chars(&name, wanted) {
            proof {
                lemma_first_match_from(names, wanted@, i as int);
            }
            return Some(i);
        }
        i += 1;
    }
    proof {
        lemma_first_match_from(names, wanted@, i as int);
    }
    None
}

fn preferred_match_exec(images: &[FolderImage]) -> (r: Option<usize>)
    ensures
        match preferred_match(image_names(images@), 0) {
            Some(i) => r == Some(i as usize),
            None => r is None,
        },
{
    let ghost names = image_names(images@);
    let preferred = vec![
        chars_of("cover"), chars_of("folder"), chars_of("front"), chars_of("album"),
        chars_of("albumart"), chars_of("album art"), chars_of("artwork"), chars_of("folder_art"),
        chars_of("cover_art"), chars_of("thumb"),
    ];
    assert(views(preferred@) =~= cover_file_stems());
    let mut k: usize = 0;
    while k < preferred.len()
        invariant
            k <= preferred.len(),
            names == image_names(images@),
            views(preferred@) == cover_file_stems(),
            forall|j: int| 0 <= j < k ==> first_match(names, #[trigger] cover_file_stems()[j], 0) is None,
        decreases preferred.len() - k,
    {
        let found = first_match_exec(images, &preferred[k]);
        assert(preferred@[k as int]@ == cover_file_stems()[k as int]);
        if let Some(i) = found {
            proof {
                lemma_preferred_from(names, k as int);
            }
            return Some(i);
        }
        k += 1;
    }
    proof {
        lemma_preferred_from(names, k as int);
    }
    None
}

/// Whether a stem says "cover" in one of the usual ways (`AlbumArtLarge`,
/// `front_cover`, `Folder-Art`, ...).
pub fn is_cover_keyword(stem: &str) -> (r: bool)
    ensures
        r == is_cover_keyword_spec(stem@),
{
    is_cover_keyword_chars(&chars_of(stem))
}

fn is_cover_keyword_chars(stem: &[char]) -> (r: bool)
    ensures
        r == is_cover_keyword_spec(stem@),
{
    let norm = strip_separators_of(&lower_of(stem));
    if contains_exec(&norm, &chars_of("cover")) || contains_exec(&norm, &chars_of("front"))
        || contains_exec(&norm, &chars_of("folder")) || contains_exec(&norm, &chars_of("albumart"))
        || contains_exec(&norm, &chars_of("artwork")) {
        return true;
    }
    let preferred = vec![
        chars_of("cover"), chars_of("folder"), chars_of("front"), chars_of("album"),
        chars_of("albumart"), chars_of("album art"), chars_of("artwork"), chars_of("folder_art"),
        chars_of("cover_art"), chars_of("thumb"),
    ];
    assert(views(preferred@) =~= cover_file_stems());
    let mut k: usize = 0;
    while k < preferred.len()
        invariant
            k <= preferred.len(),
            norm@ == strip_separators(lower(stem@)),
            views(preferred@) == cover_file_stems(),
            forall|j: int|
                0 <= j < k ==> !(norm@ =~= strip_separators(#[trigger] cover_file_stems()[j])),
        decreases preferred.len() - k,
    {
        let p = strip_separators_of(&preferred[k]);
        assert(preferred@[k as int]@ == cover_file_stems()[k as int]);
        if same_chars(&norm, &p) {
            return true;
        }
        k += 1;
    }
    false
}

fn keyword_score_exec(s: &[char]) -> (r: i32)
    ensures
        r == keyword_score(s@),
{
    let mut score: i32 = 0;
    if contains_exec(s, &chars_of("large")) {
        score += 10;
    }
    if contains_exec(s, &chars_of("front")) {
        score += 8;
    }
    if contains_exec(s, &chars_of("cover")) {
        score += 6;
    }
    if contains_exec(s, &chars_of("folder")) {
        score += 4;
    }
    if contains_exec(s, &chars_of("albumart")) {
        score += 3;
    }
    if contains_exec(s, &chars_of("small")) {
        score -= 10;
    }
    score
}

fn best_keyword_exec(images: &[FolderImage]) -> (r: Option<usize>)
    ensures
        match best_keyword(image_names(images@), images@.len() as int) {
            Some(i) => r == Some(i as usize),
            None => r is None,
        },
{
    let ghost names = image_names(images@);
    let mut best: Option<usize> = None;
    let mut best_score: i32 = 0;
    let mut k: usize = 0;
    while k < images.len()
        invariant
            k <= images.len(),
            names == image_names(images@),
            match best_keyword(names, k as int) {
                Some(b) => best == Some(b as usize) && best_score == score_at(names, b),
                None => best is None,
            },
        decreases images.len() - k,
    {
        proof {
            lemma_best_keyword_bound(names, k as int);
        }
        let st = stem_of(&chars_of(images[k].name.as_str()));
        if is_cover_keyword_chars(&st) {
            let score = keyword_score_exec(&lower_of(&st));
            if best.is_none() || score > best_score {
                best = Some(k);
                best_score = score;
            }
        }
        k += 1;
    }
    best
}

/// The index of the cover among a folder's images, for the audio file
/// `audio_name` in the folder `folder_name`; see `cover_choice`.
pub fn cover_index_for(art: &FolderArt, audio_name: Option<&str>, folder_name: Option<&str>) -> (r:
    Option<usize>)
    ensures
        r == match cover_choice(
            image_names(art.images@),
            match audio_name {
                Some(a) => Some(a@),
                None => None,
            },
            match folder_name {
                Some(f) => Some(f@),
                None => None,
            },
        ) {
            Some(i) => Some(i as usize),
            None => None::<usize>,
        },
        match cover_choice(
            image_names(art.images@),
            match audio_name {
                Some(a) => Some(a@),
                None => None,
            },
            match folder_name {
                Some(f) => Some(f@),
                None => None,
            },
        ) {
            Some(i) => 0 <= i < art.images@.len(),
            None => true,
        },
{
    let images = art.images.as_slice();
    let ghost names = image_names(images@);
    proof {
        lemma_preferred_bound(names, 0);
        lemma_best_keyword_bound(names, names.len() as int);
        if let Some(a) = audio_name {
            lemma_first_match_bound(names, stem(a@), 0);
        }
        if let Some(f) = folder_name {
            lemma_first_match_bound(names, f@, 0);
        }
    }
    if images.len() == 0 {
        return None;
    }
    if let Some(a) = audio_name {
        let st = stem_of(&chars_of(a));
        if let Some(i) = first_match_exec(images, &st) {
            return Some(i);
        }
    }
    if let Some(i) = preferred_match_exec(images) {
        return Some(i);
    }
    if let Some(i) = best_keyword_exec(images) {
        return Some(i);
    }
    if let Some(f) = folder_name {
        if let Some(i) = first_match_exec(images, &chars_of(f)) {
            return Some(i);
        }
    }
    if images.len() == 1 {
        Some(0)
    } else {
        None
    }
}

/// The path of the cover file stored beside the audio file `audio_name` in
/// the folder `folder_name`, chosen among the folder's images as
/// `cover_choice` says.
pub fn cover_file_for(art: &FolderArt, audio_name: Option<&str>, folder_name: Option<&str>) -> (r:
    Option<String>)
    ensures
        match cover_choice(
            image_names(art.images@),
            match audio_name {
                Some(a) => Some(a@),
                None => None,
            },
            match folder_name {
                Some(f) => Some(f@),
                None => None,
            },
        ) {
            Some(i) => 0 <= i < art.images@.len() && r is Some && r->0@ == art.images@[i].path@,
            None => r is None,
        },
{
    let ghost choice = cover_choice(
        image_names(art.images@),
        match audio_name {
            Some(a) => Some(a@),
            None => None,
        },
        match folder_name {
            Some(f) => Some(f@),
            None => None,
        },
    );
    let index = cover_index_for(art, audio_name, folder_name);
    match index {
        Some(i) => {
            assert(choice is Some);
            let ghost j = choice->0;
            assert(0 <= j < art.images.len());
            assert(j as usize == i);
            Some(art.images[i].path.clone())
        },
        None => None,
    }
}

/// The fingerprint of the images beside a track, or 0 when the track has
/// no folder.
pub fn folder_art_fingerprint(folder: Option<&FolderArt>) -> (r: u64)
    ensures
        r == match folder {
            Some(art) => art.fingerprint,
            None => 0,
        },
{
    match folder {
        Some(art) => art.fingerprint,
        None => 0,
    }
}

/// The stamp an artwork index entry is keyed by: the audio file's own
/// timestamp folded with the fingerprint of the images beside it, so that a
/// cover appearing, changing or disappearing beside the audio changes it.
pub fn artwork_stamp(audio_stamp: u64, folder_fingerprint: u64) -> (r: u64)
    ensures
        r == mixed(audio_stamp, folder_fingerprint),
{
    mix(audio_stamp, folder_fingerprint)
}


// ---------------------------------------------------------------------------
// Embedded pictures
// ---------------------------------------------------------------------------

/// A picture found in a file's tags: whether it is marked as the front
/// cover, and its bytes.
pub struct EmbeddedPicture {
    pub front_cover: bool,
    pub data: Vec<u8>,
}

/// The first picture at or after `i` with bytes in it (and, with
/// `front_only`, marked as the front cover).
pub open spec fn first_picture(ps: Seq<EmbeddedPicture>, front_only: bool, i: int) -> Option<int>
    decreases ps.len() - i,
{
    if i < 0 || i >= ps.len() {
        None
    } else if ps[i].data@.len() > 0 && (!front_only || ps[i].front_cover) {
        Some(i)
    } else {
        first_picture(ps, front_only, i + 1)
    }
}

/// The artwork among a file's pictures: the first non-empty front cover,
/// or failing that the first non-empty picture of any kind.
pub open spec fn chosen_picture(ps: Seq<EmbeddedPicture>) -> Option<Seq<u8>> {
    match first_picture(ps, true, 0) {
        Some(i) => Some(ps[i].data@),
        None => match first_picture(ps, false, 0) {
            Some(i) => Some(ps[i].data@),
            None => None,
        },
    }
}

proof fn lemma_first_picture_from(ps: Seq<EmbeddedPicture>, front_only: bool, i: int)
    requires
        0 <= i <= ps.len(),
        forall|j: int|
            0 <= j < i ==> !(#[trigger] ps[j].data@.len() > 0 && (!front_only || ps[j].front_cover)),
    ensures
        first_picture(ps, front_only, 0) == first_picture(ps, front_only, i),
    decreases i,
{
    if i > 0 {
        lemma_first_picture_from(ps, front_only, i - 1);
    }
}

fn first_picture_exec(ps: &[EmbeddedPicture], front_only: bool) -> (r: Option<usize>)
    ensures
        match first_picture(ps@, front_only, 0) {
            Some(i) => r == Some(i as usize) && 0 <= i < ps@.len(),
            None => r is None,
        },
{
    let mut i: usize = 0;
    while i < ps.len()
        invariant
            i <= ps.len(),
            forall|j: int|
                0 <= j < i ==> !(#[trigger] ps@[j].data@.len() > 0 && (!front_only
                    || ps@[j].front_cover)),
        decreases ps.len() - i,
    {
        if ps[i].data.len() > 0 && (!front_only || ps[i].front_cover) {
            proof {
                lemma_first_picture_from(ps@, front_only, i as int);
            }
            return Some(i);
        }
        i += 1;
    }
    proof {
        lemma_first_picture_from(ps@, front_only, i as int);
    }
    None
}

fn copy_bytes(v: &[u8]) -> (r: Vec<u8>)
    ensures
        r@ == v@,
{
    let mut r: Vec<u8> = Vec::new();
    let mut i: usize = 0;
    while i < v.len()
        invariant
            i <= v.len(),
            r@ == v@.take(i as int),
        decreases v.len() - i,
    {
        r.push(v[i]);
        i += 1;
        assert(r@ =~= v@.take(i as int));
    }
    assert(v@.take(i as int) =~= v@);
    r
}

/// The artwork among a file's pictures, taken tag by tag in the order the
/// tags were read: the first non-empty front cover, else the first
/// non-empty picture.
pub fn choose_embedded_picture(pictures: &[EmbeddedPicture]) -> (r: Option<Vec<u8>>)
    ensures
        match chosen_picture(pictures@) {
            Some(d) => r is Some && r->0@ == d,
            None => r is None,
        },
{
    if let Some(i) = first_picture_exec(pictures, true) {
        return Some(copy_bytes(&pictures[i].data));
    }
    match first_picture_exec(pictures, false) {
        Some(i) => Some(copy_bytes(&pictures[i].data)),
        None => None,
    }
}

/// Embedded artwork first, then the folder's own cover file.
pub fn extract_cover_art_with_fallback(embedded: Option<Vec<u8>>, folder_cover: Option<Vec<u8>>) -> (r:
    Option<Vec<u8>>)
    ensures
        r == match embedded {
            Some(e) => Some(e),
            None => folder_cover,
        },
{
    match embedded {
        Some(e) => Some(e),
        None => folder_cover,
    }
}

// ---------------------------------------------------------------------------
// What is remembered about folders
// ---------------------------------------------------------------------------

/// Directory -> its listing, and cover file -> the thumbnail decoded from
/// it (`None`: that file is not a usable image). A library keeps many
/// tracks per folder, so a folder is read, and its cover decoded, once.
pub struct FolderArtCache {
    pub folders: KeyedMemo<FolderArt>,
    pub thumbnails: KeyedMemo<Option<Vec<u8>>>,
}

impl FolderArtCache {
    pub open spec fn wf(&self) -> bool {
        self.folders.wf() && self.thumbnails.wf()
    }

    pub fn new() -> (r: Self)
        ensures
            r.wf(),
            r.folders@ == Map::<Seq<char>, FolderArt>::empty(),
            r.thumbnails@ == Map::<Seq<char>, Option<Vec<u8>>>::empty(),
    {
        FolderArtCache { folders: KeyedMemo::new(), thumbnails: KeyedMemo::new() }
    }
}

/// Forgets everything worked out about folders' artwork: which images they
/// hold and the thumbnails decoded from them. Called after a scan, which is
/// when covers appear, change or go.
pub fn clear_folder_art_cache(cache: &mut FolderArtCache)
    ensures
        final(cache).wf(),
        final(cache).folders@ == Map::<Seq<char>, FolderArt>::empty(),
        final(cache).thumbnails@ == Map::<Seq<char>, Option<Vec<u8>>>::empty(),
{
    cache.folders.clear();
    cache.thumbnails.clear();
}

/// Once the folder cache is cleared it remembers nothing, so the next
/// look at any folder or cover file works from the disk as it then is; and
/// clearing a cleared cache leaves it as it was.
pub proof fn cleared_cache_remembers_nothing(cleared: FolderArtCache, again: FolderArtCache, key: Seq<char>)
    requires
        cleared.wf(),
        cleared.folders@ == Map::<Seq<char>, FolderArt>::empty(),
        cleared.thumbnails@ == Map::<Seq<char>, Option<Vec<u8>>>::empty(),
        again.folders@ == Map::<Seq<char>, FolderArt>::empty(),
        again.thumbnails@ == Map::<Seq<char>, Option<Vec<u8>>>::empty(),
    ensures
        !cleared.folders@.contains_key(key),
        !cleared.thumbnails@.contains_key(key),
        again.folders@ == cleared.folders@,
        again.thumbnails@ == cleared.thumbnails@,
{
}

// ---------------------------------------------------------------------------
// On-disk indexes
// ---------------------------------------------------------------------------

/// The hexadecimal digit of `d`.
pub open spec fn hex_digit(d: nat) -> char {
    seq!['0', '1', '2', '3', '4', '5', '6', '7', '8', '9', 'a', 'b', 'c', 'd', 'e', 'f'][d as int]
}

/// The `n` low hexadecimal digits of `v`, most significant first, as
/// `{:0n$x}` writes a value below `16^n`.
pub open spec fn hex_digits(v: nat, n: nat) -> Seq<char>
    decreases n,
{
    if n == 0 {
        Seq::empty()
    } else {
        hex_digits(v / 16, (n - 1) as nat).push(hex_digit(v % 16))
    }
}

/// `v` in lower-case hexadecimal without leading zeros, as `{:x}` writes it.
pub open spec fn hex(v: nat) -> Seq<char>
    decreases v,
{
    if v < 16 {
        seq![hex_digit(v)]
    } else {
        hex(v / 16).push(hex_digit(v % 16))
    }
}

fn hex_digit_of(d: u64) -> (r: char)
    requires
        d < 16,
    ensures
        r == hex_digit(d as nat),
{
    let table = ['0', '1', '2', '3', '4', '5', '6', '7', '8', '9', 'a', 'b', 'c', 'd', 'e', 'f'];
    assert(table@ =~= seq!['0', '1', '2', '3', '4', '5', '6', '7', '8', '9', 'a', 'b', 'c', 'd', 'e', 'f']);
    table[d as usize]
}

/// `v` as sixteen lower-case hexadecimal digits.
pub fn hex16(v: u64) -> (r: Vec<char>)
    ensures
        r@ == hex_digits(v as nat, 16),
{
    let mut acc: Vec<char> = Vec::new();
    let mut rest: u64 = v;
    let mut i: usize = 0;
    while i < 16
        invariant
            i <= 16,
            hex_digits(rest as nat, (16 - i) as nat) + acc@ == hex_digits(v as nat, 16),
        decreases 16 - i,
    {
        let d = hex_digit_of(rest % 16);
        proof {
            let m = (16 - i - 1) as nat;
            assert(hex_digits(rest as nat, (16 - i) as nat) == hex_digits((rest / 16) as nat, m).push(d));
            assert(hex_digits((rest / 16) as nat, m).push(d) + acc@ =~= hex_digits((rest / 16) as nat, m) + (seq![d] + acc@));
        }
        let ghost before = acc@;
        acc.insert(0, d);
        assert(acc@ =~= seq![d] + before);
        rest = rest / 16;
        i += 1;
    }
    assert(hex_digits(rest as nat, 0) + acc@ =~= acc@);
    acc
}


/// The name of an index entry: the sixteen hexadecimal digits of the
/// fingerprint of the audio path and its stamp, then `suffix`.
pub open spec fn entry_name(audio_path: Seq<char>, stamp: u64, suffix: Seq<char>) -> Seq<char> {
    hex_digits(fnv(fnv(FNV_OFFSET, vstd::utf8::encode_utf8(audio_path)), le_bytes(stamp as nat, 8)) as nat, 16)
        + suffix
}

fn entry_path_in(directory: &str, audio_path: &str, stamp: u64, suffix: &str) -> (r: String)
    ensures
        r@ == join_path(directory@, entry_name(audio_path@, stamp, suffix@)),
{
    let mut name = hex16(fingerprint(audio_path, stamp));
    crate::providers::push_all(&mut name, &chars_of(suffix));
    string_of(&join_path_of(&chars_of(directory), &name))
}

/// Covers already extracted and shrunk once, kept on disk so that the next
/// launch paints them without opening the audio files again. A file found
/// to have no artwork is remembered too, as an empty entry.
pub struct ThumbnailStore {
    directory: String,
}

impl ThumbnailStore {
    pub closed spec fn dir(&self) -> Seq<char> {
        self.directory@
    }

    /// The index kept in `directory` (which the caller creates).
    pub fn at(directory: String) -> (r: Self)
        ensures
            r.dir() == directory@,
    {
        ThumbnailStore { directory }
    }

    pub fn directory(&self) -> (r: &str)
        ensures
            r@ == self.dir(),
    {
        self.directory.as_str()
    }

    /// The app's own index, `covers` in its data directory, when there is one.
    pub fn default_location(data_dir: Option<&str>) -> (r: Option<Self>)
        ensures
            match data_dir {
                Some(d) => r is Some && r->0.dir() == join_path(d@, "covers"@),
                None => r is None,
            },
    {
        match data_dir {
            Some(d) => Some(
                ThumbnailStore { directory: string_of(&join_path_of(&chars_of(d), &chars_of("covers"))) },
            ),
            None => None,
        }
    }

    /// The entry for `audio_path` at `stamp`: `<16 hex digits>.img`, named
    /// after their fingerprint, so that a new stamp (a re-tagged file, a
    /// cover added beside it) means a different entry.
    pub fn entry_path(&self, audio_path: &str, stamp: u64) -> (r: String)
        ensures
            r@ == join_path(self.dir(), entry_name(audio_path@, stamp, ".img"@)),
    {
        entry_path_in(self.directory.as_str(), audio_path, stamp, ".img")
    }

    /// What an entry holds: the thumbnail, or nothing for "no artwork".
    pub fn entry_contents(thumbnail: Option<&[u8]>) -> (r: Vec<u8>)
        ensures
            r@ == stored_entry(
                match thumbnail {
                    Some(t) => Some(t@),
                    None => None,
                },
            ),
    {
        match thumbnail {
            Some(t) => copy_bytes(t),
            None => Vec::new(),
        }
    }

    /// What reading an entry means: `None` when it could not be read (never
    /// looked at), `Some(None)` for an empty entry (no artwork), else the
    /// thumbnail.
    pub fn read_entry(read: Option<Vec<u8>>) -> (r: Option<Option<Vec<u8>>>)
        ensures
            match read {
                Some(bytes) => r is Some && match r->0 {
                    Some(t) => read_back(bytes@) == Some(t@),
                    None => read_back(bytes@) is None,
                },
                None => r is None,
            },
    {
        match read {
            Some(bytes) => if bytes.len() == 0 {
                Some(None)
            } else {
                Some(Some(bytes))
            },
            None => None,
        }
    }
}

/// The bytes an index entry holds for a thumbnail, or for "no artwork".
pub open spec fn stored_entry(thumbnail: Option<Seq<u8>>) -> Seq<u8> {
    match thumbnail {
        Some(t) => t,
        None => Seq::empty(),
    }
}

/// What an entry's bytes say: no artwork when empty, else the thumbnail.
pub open spec fn read_back(bytes: Seq<u8>) -> Option<Seq<u8>> {
    if bytes.len() == 0 {
        None
    } else {
        Some(bytes)
    }
}

/// Reading an entry back gives what was stored: the thumbnail, or the
/// remembered lack of one.
pub proof fn thumbnail_entries_round_trip(thumbnail: Option<Seq<u8>>)
    requires
        thumbnail matches Some(t) ==> t.len() > 0,
    ensures
        read_back(stored_entry(thumbnail)) == thumbnail,
{
}

/// Decoded loudness envelopes kept on disk beside the covers.
pub struct WaveformStore {
    directory: String,
}

impl WaveformStore {
    pub closed spec fn dir(&self) -> Seq<char> {
        self.directory@
    }

    /// The store kept in `directory` (which the caller creates).
    pub fn at(directory: String) -> (r: Self)
        ensures
            r.dir() == directory@,
    {
        WaveformStore { directory }
    }

    pub fn directory(&self) -> (r: &str)
        ensures
            r@ == self.dir(),
    {
        self.directory.as_str()
    }

    /// The app's own store, `waveforms` in its data directory, when there is
    /// one.
    pub fn default_location(data_dir: Option<&str>) -> (r: Option<Self>)
        ensures
            match data_dir {
                Some(d) => r is Some && r->0.dir() == join_path(d@, "waveforms"@),
                None => r is None,
            },
    {
        match data_dir {
            Some(d) => Some(
                WaveformStore { directory: string_of(&join_path_of(&chars_of(d), &chars_of("waveforms"))) },
            ),
            None => None,
        }
    }

    /// The entry for `audio_path` at `stamp`: `<16 hex digits>.wf`.
    pub fn entry_path(&self, audio_path: &str, stamp: u64) -> (r: String)
        ensures
            r@ == join_path(self.dir(), entry_name(audio_path@, stamp, ".wf"@)),
    {
        entry_path_in(self.directory.as_str(), audio_path, stamp, ".wf")
    }

    /// Whether an entry of `len` bytes holds bars: four bytes each, and at
    /// least one.
    pub fn holds_bars(len: usize) -> (r: bool)
        ensures
            r == (len > 0 && len % 4 == 0),
    {
        len > 0 && len % 4 == 0
    }
}

// ---------------------------------------------------------------------------
// Thumbnails
// ---------------------------------------------------------------------------

/// Longest edge of a stored thumbnail.
pub const THUMBNAIL_MAX_PX: u32 = 192;

/// JPEG quality of a stored thumbnail.
pub const THUMBNAIL_QUALITY: u8 = 82;

#[verifier::external_type_specification]
#[verifier::external_body]
pub struct ExDynamicImage(image::DynamicImage);

/// What `image::load_from_memory` makes of these bytes, by the decoded
/// image's width and height; `None` when it cannot decode them. The format
/// is guessed from the bytes themselves, so the answer depends on them alone.
pub uninterp spec fn decoded_size_of(bytes: Seq<u8>) -> Option<(u32, u32)>;

/// A decoded image with its width and height, read from the image by the
/// functions below that make one.
struct Picture {
    image: image::DynamicImage,
    width: u32,
    height: u32,
}

/// Whether `bytes` are framed as a JPEG stream: the start-of-image marker
/// `FF D8` first and the end-of-image marker `FF D9` last.
pub open spec fn is_jpeg_framed(bytes: Seq<u8>) -> bool {
    &&& bytes.len() >= 4
    &&& bytes[0] == 0xFFu8 && bytes[1] == 0xD8u8
    &&& bytes[bytes.len() - 2] == 0xFFu8 && bytes[bytes.len() - 1] == 0xD9u8
}

/// `image::load_from_memory`: decodes the bytes in whatever format they
/// turn out to be. Claimed: it succeeds exactly when `decoded_size_of` the
/// bytes is a size, and the image has that width and height.
#[verifier::external_body]
fn decode_image(bytes: &[u8]) -> (r: Option<Picture>)
    ensures
        match decoded_size_of(bytes@) {
            Some((width, height)) => r is Some && r->0.width == width && r->0.height == height,
            None => r is None,
        },
{
    match image::load_from_memory(bytes) {
        Ok(image) => Some(Picture { width: image.width(), height: image.height(), image }),
        Err(_) => None,
    }
}

/// `DynamicImage::thumbnail(max, max)`: the image scaled to fit within `max`
/// by `max`, keeping its aspect ratio. Claimed: each side of the result is
/// at least 1 (the size is computed with a floor of 1) and at most `max`.
#[verifier::external_body]
fn thumbnail_of(picture: &Picture, max: u32) -> (r: Picture)
    requires
        max >= 1,
    ensures
        1 <= r.width <= max,
        1 <= r.height <= max,
{
    let image = picture.image.thumbnail(max, max);
    Picture { width: image.width(), height: image.height(), image }
}

/// `JpegEncoder::new_with_quality` and `encode_image` on the image's RGB
/// pixels (`to_rgb8`, which keeps the size), written into a `Vec`, for an
/// image no larger than a thumbnail. Claimed: it succeeds exactly when each
/// side is at least 1 (the encoder refuses an empty side, and writing into
/// a `Vec` does not fail), and the bytes then open with the start-of-image
/// marker and close with the end-of-image marker, and decode (as a JPEG,
/// which their first bytes announce, and far inside the decoder's default
/// memory limit) to an image of the same size. Nothing is claimed of the
/// pixels. Larger images are left out: decoding one back can exceed that
/// limit.
#[verifier::external_body]
fn encode_jpeg(picture: &Picture, quality: u8) -> (r: Option<Vec<u8>>)
    requires
        picture.width <= THUMBNAIL_MAX_PX,
        picture.height <= THUMBNAIL_MAX_PX,
    ensures
        r is Some == (1 <= picture.width && 1 <= picture.height),
        r matches Some(bytes) ==> is_jpeg_framed(bytes@),
        r matches Some(bytes) ==> decoded_size_of(bytes@) == Some((picture.width, picture.height)),
{
    let rgb = picture.image.to_rgb8();
    let mut encoded = Vec::new();
    let mut encoder = image::codecs::jpeg::JpegEncoder::new_with_quality(&mut encoded, quality);
    match encoder.encode_image(&rgb) {
        Ok(()) => Some(encoded),
        Err(_) => None,
    }
}

/// Whether an image of that size is larger than a thumbnail.
pub open spec fn needs_shrink_spec(width: u32, height: u32) -> bool {
    width > THUMBNAIL_MAX_PX || height > THUMBNAIL_MAX_PX
}

/// Whether an image of that size is larger than a thumbnail.
pub fn needs_shrink(width: u32, height: u32) -> (r: bool)
    ensures
        r == needs_shrink_spec(width, height),
{
    width > THUMBNAIL_MAX_PX || height > THUMBNAIL_MAX_PX
}

/// The image, scaled down to a thumbnail when it is larger than one: a
/// larger image comes back no larger than `THUMBNAIL_MAX_PX` on a side (and
/// at least 1), any other comes back as it was.
fn shrink(image: Picture) -> (r: Picture)
    ensures
        needs_shrink_spec(image.width, image.height) ==> {
            &&& 1 <= r.width <= THUMBNAIL_MAX_PX
            &&& 1 <= r.height <= THUMBNAIL_MAX_PX
        },
        !needs_shrink_spec(image.width, image.height) ==> r == image,
{
    if needs_shrink(image.width, image.height) {
        thumbnail_of(&image, THUMBNAIL_MAX_PX)
    } else {
        image
    }
}

/// Decodes `bytes` (any format the image crate reads here) and re-encodes
/// it as a JPEG thumbnail no larger than `THUMBNAIL_MAX_PX` on a side.
/// `None` for bytes that are not a decodable image, and for an image with
/// an empty side that needs no shrinking (the encoder refuses it); any
/// other image gives a framed JPEG stream that decodes to an image at most
/// `THUMBNAIL_MAX_PX` on a side: the image itself when it was no larger,
/// else its shrunk copy.
pub fn thumbnail_jpeg(bytes: &[u8]) -> (r: Option<Vec<u8>>)
    ensures
        match decoded_size_of(bytes@) {
            None => r is None,
            Some((width, height)) => r is Some == (needs_shrink_spec(width, height) || (width >= 1 && height
                >= 1)),
        },
        r matches Some(jpeg) ==> is_jpeg_framed(jpeg@),
        r matches Some(jpeg) ==> match (decoded_size_of(jpeg@), decoded_size_of(bytes@)) {
            (Some((w, h)), Some((width, height))) => {
                &&& 1 <= w <= THUMBNAIL_MAX_PX
                &&& 1 <= h <= THUMBNAIL_MAX_PX
                &&& !needs_shrink_spec(width, height) ==> w == width && h == height
            },
            _ => false,
        },
{
    match decode_image(bytes) {
        Some(image) => {
            let thumb = shrink(image);
            encode_jpeg(&thumb, THUMBNAIL_QUALITY)
        },
        None => None,
    }
}

// ---------------------------------------------------------------------------
// In-memory artwork cache
// ---------------------------------------------------------------------------

/// What `<str as Hash>::hash` writes into a hasher for `text`: the same
/// writes for the same text, whatever the hasher.
pub uninterp spec fn text_hash_writes(text: Seq<char>) -> Seq<Seq<u8>>;

/// `<str as Hash>::hash`: hashes `text` into `hasher`. Claimed: the writes
/// it adds to the hasher's are `text_hash_writes` of the text.
#[verifier::external_body]
fn hash_text(text: &str, hasher: &mut std::collections::hash_map::DefaultHasher)
    ensures
        final(hasher)@ == old(hasher)@ + text_hash_writes(text@),
{
    std::hash::Hash::hash(text, hasher)
}

/// The standard library's default hash of a text: what a fresh
/// `DefaultHasher` (whose keys are fixed) finishes with once the text is
/// hashed into it.
pub open spec fn default_hash_of(text: Seq<char>) -> u64 {
    std::collections::hash_map::DefaultHasher::spec_finish(text_hash_writes(text))
}

/// The default hash of `text`.
fn default_hash(text: &str) -> (r: u64)
    ensures
        r == default_hash_of(text@),
{
    let mut hasher = std::collections::hash_map::DefaultHasher::new();
    hash_text(text, &mut hasher);
    assert(hasher@ =~= text_hash_writes(text@));
    std::hash::Hasher::finish(&hasher)
}

/// `v` in lower-case hexadecimal without leading zeros.
pub fn hex_of(v: u64) -> (r: Vec<char>)
    ensures
        r@ == hex(v as nat),
    decreases v,
{
    if v < 16 {
        let d = hex_digit_of(v);
        vec![d]
    } else {
        let mut r = hex_of(v / 16);
        r.push(hex_digit_of(v % 16));
        r
    }
}

/// `keys` with every `key` taken out, the others in order.
pub open spec fn without_key(keys: Seq<Seq<char>>, key: Seq<char>) -> Seq<Seq<char>>
    decreases keys.len(),
{
    if keys.len() == 0 {
        keys
    } else if keys.last() == key {
        without_key(keys.drop_last(), key)
    } else {
        without_key(keys.drop_last(), key).push(keys.last())
    }
}

pub open spec fn texts_view(v: Seq<String>) -> Seq<Seq<char>> {
    Seq::new(v.len(), |i: int| v[i]@)
}

/// What looking a key up in the artwork cache finds.
pub enum ArtLookup {
    /// The key is known to have no artwork.
    Missing,
    /// The artwork held in memory.
    Hit(Vec<u8>),
    /// Nothing is known in memory.
    Unknown,
}

/// Whether storing artwork evicts first: the memory holds `max` pieces
/// or more and some key is in the order.
pub open spec fn store_evicts(memory: Map<Seq<char>, Seq<u8>>, order: Seq<Seq<char>>, max: usize) -> bool {
    memory.dom().len() >= max && order.len() > 0
}

/// The memory after `art` is stored under `key`: the least recently used
/// piece evicted first when the memory is full.
pub open spec fn stored_memory(
    memory: Map<Seq<char>, Seq<u8>>,
    order: Seq<Seq<char>>,
    max: usize,
    key: Seq<char>,
    art: Seq<u8>,
) -> Map<Seq<char>, Seq<u8>> {
    if store_evicts(memory, order, max) {
        memory.remove(order[0]).insert(key, art)
    } else {
        memory.insert(key, art)
    }
}

/// The order after a store of `key`: the evicted key gone, `key` last.
pub open spec fn stored_order(memory: Map<Seq<char>, Seq<u8>>, order: Seq<Seq<char>>, max: usize, key: Seq<char>) -> Seq<
    Seq<char>,
> {
    if store_evicts(memory, order, max) {
        order.drop_first().push(key)
    } else {
        order.push(key)
    }
}

/// Artwork just stored is what a look-up of its key finds, unless the key
/// is known to have none; the other pieces held are those held before but
/// for one evicted to make room.
pub proof fn stored_artwork_is_found(
    memory: Map<Seq<char>, Seq<u8>>,
    order: Seq<Seq<char>>,
    max: usize,
    key: Seq<char>,
    art: Seq<u8>,
    other: Seq<char>,
)
    requires
        other != key,
    ensures
        stored_memory(memory, order, max, key, art).contains_key(key),
        stored_memory(memory, order, max, key, art)[key] == art,
        stored_order(memory, order, max, key).last() == key,
        stored_memory(memory, order, max, key, art).contains_key(other) ==> memory.contains_key(other)
            && stored_memory(memory, order, max, key, art)[other] == memory[other],
        memory.contains_key(other) && !stored_memory(memory, order, max, key, art).contains_key(other) ==> store_evicts(
            memory,
            order,
            max,
        ) && other == order[0],
{
}

/// Artwork by key: raw image bytes held in memory, the least recently used
/// evicted first once `max_memory` are held, and the keys known to have no
/// artwork. The bytes also live on disk under `cache_dir`.
pub struct ArtCache {
    cache_dir: String,
    max_memory: usize,
    memory: KeyedMemo<Vec<u8>>,
    access_order: Vec<String>,
    negative: KeyedMemo<bool>,
}

impl ArtCache {
    pub closed spec fn wf(&self) -> bool {
        self.memory.wf() && self.negative.wf()
    }

    pub closed spec fn spec_dir(&self) -> Seq<char> {
        self.cache_dir@
    }

    pub closed spec fn spec_max(&self) -> usize {
        self.max_memory
    }

    /// The artwork held in memory, by key.
    pub closed spec fn spec_memory(&self) -> Map<Seq<char>, Seq<u8>> {
        self.memory@.map_values(|v: Vec<u8>| v@)
    }

    /// The keys in memory order, least recently used first.
    pub closed spec fn spec_order(&self) -> Seq<Seq<char>> {
        texts_view(self.access_order@)
    }

    /// The keys known to have no artwork.
    pub closed spec fn spec_missing(&self) -> Set<Seq<char>> {
        self.negative@.dom()
    }

    /// An empty cache keeping at most `max_memory` pieces of artwork in
    /// memory (the caller creates `cache_dir`).
    pub fn new(cache_dir: String, max_memory: usize) -> (r: Self)
        ensures
            r.wf(),
            r.spec_dir() == cache_dir@,
            r.spec_max() == max_memory,
            r.spec_memory() == Map::<Seq<char>, Seq<u8>>::empty(),
            r.spec_order() == Seq::<Seq<char>>::empty(),
            r.spec_missing() == Set::<Seq<char>>::empty(),
    {
        let r = ArtCache {
            cache_dir,
            max_memory,
            memory: KeyedMemo::new(),
            access_order: Vec::new(),
            negative: KeyedMemo::new(),
        };
        assert(r.spec_memory() =~= Map::<Seq<char>, Seq<u8>>::empty());
        assert(r.spec_order() =~= Seq::<Seq<char>>::empty());
        assert(r.spec_missing() =~= Set::<Seq<char>>::empty());
        r
    }

    /// The key of an audio file: its path's default hash in hexadecimal.
    pub fn generate_key(&self, audio_path: &str) -> (r: String)
        ensures
            r@ == hex(default_hash_of(audio_path@) as nat),
    {
        string_of(&hex_of(default_hash(audio_path)))
    }

    /// Where the artwork of `key` is kept on disk: `<key>_master.png`.
    pub fn master_path(&self, key: &str) -> (r: String)
        ensures
            r@ == join_path(self.spec_dir(), key@ + "_master.png"@),
    {
        let mut name = chars_of(key);
        crate::providers::push_all(&mut name, &chars_of("_master.png"));
        string_of(&join_path_of(&chars_of(self.cache_dir.as_str()), &name))
    }

    fn key_order_without(&self, key: &str) -> (r: Vec<String>)
        ensures
            texts_view(r@) == without_key(self.spec_order(), key@),
    {
        let wanted = chars_of(key);
        let mut out: Vec<String> = Vec::new();
        let mut i: usize = 0;
        while i < self.access_order.len()
            invariant
                i <= self.access_order@.len(),
                wanted@ == key@,
                texts_view(out@) == without_key(texts_view(self.access_order@).take(i as int), key@),
            decreases self.access_order.len() - i,
        {
            proof {
                assert(texts_view(self.access_order@).take(i + 1).drop_last() =~= texts_view(
                    self.access_order@,
                ).take(i as int));
            }
            let k = &self.access_order[i];
            if !same_chars(&chars_of(k.as_str()), &wanted) {
                let ghost before = out@;
                out.push(k.clone());
                assert(texts_view(out@) =~= texts_view(before).push(k@));
            }
            i += 1;
        }
        assert(texts_view(self.access_order@).take(i as int) =~= texts_view(self.access_order@));
        out
    }

    /// Looks `key` up. Artwork held in memory becomes the most recently
    /// used; nothing else changes.
    pub fn lookup(&mut self, key: &str) -> (r: ArtLookup)
        requires
            old(self).wf(),
        ensures
            final(self).wf(),
            final(self).spec_dir() == old(self).spec_dir(),
            final(self).spec_max() == old(self).spec_max(),
            final(self).spec_memory() == old(self).spec_memory(),
            final(self).spec_missing() == old(self).spec_missing(),
            if old(self).spec_missing().contains(key@) {
                r is Missing && final(self).spec_order() == old(self).spec_order()
            } else if old(self).spec_memory().contains_key(key@) {
                &&& r matches ArtLookup::Hit(art) && art@ == old(self).spec_memory()[key@]
                &&& final(self).spec_order() == without_key(old(self).spec_order(), key@).push(key@)
            } else {
                r is Unknown && final(self).spec_order() == old(self).spec_order()
            },
    {
        if self.negative.get(key).is_some() {
            return ArtLookup::Missing;
        }
        match self.memory.get(key) {
            Some(art) => {
                let found = copy_bytes(art.as_slice());
                let mut order = self.key_order_without(key);
                let ghost before = order@;
                order.push(key.to_string());
                assert(texts_view(order@) =~= texts_view(before).push(key@));
                self.access_order = order;
                ArtLookup::Hit(found)
            },
            None => ArtLookup::Unknown,
        }
    }

    /// Holds `art` in memory for `key` as the most recently used, first
    /// evicting the least recently used when `max_memory` are held.
    pub fn store(&mut self, key: String, art: Vec<u8>)
        requires
            old(self).wf(),
        ensures
            final(self).wf(),
            final(self).spec_dir() == old(self).spec_dir(),
            final(self).spec_max() == old(self).spec_max(),
            final(self).spec_missing() == old(self).spec_missing(),
            final(self).spec_memory() == stored_memory(old(self).spec_memory(), old(self).spec_order(), old(self).spec_max(), key@, art@),
            final(self).spec_order() == stored_order(old(self).spec_memory(), old(self).spec_order(), old(self).spec_max(), key@),
    {
        let held = self.memory.len();
        proof {
            assert(self.spec_memory().dom() =~= self.memory@.dom());
        }
        if held >= self.max_memory && self.access_order.len() > 0 {
            let evicted = self.access_order.remove(0);
            self.memory.remove(evicted.as_str());
        }
        let ghost order_before = self.access_order@;
        self.access_order.push(key.clone());
        assert(texts_view(self.access_order@) =~= texts_view(order_before).push(key@));
        self.memory.insert(key, art);
    }

    /// Remembers that `key` has no artwork.
    pub fn mark_missing(&mut self, key: String)
        requires
            old(self).wf(),
        ensures
            final(self).wf(),
            final(self).spec_dir() == old(self).spec_dir(),
            final(self).spec_max() == old(self).spec_max(),
            final(self).spec_memory() == old(self).spec_memory(),
            final(self).spec_order() == old(self).spec_order(),
            final(self).spec_missing() == old(self).spec_missing().insert(key@),
    {
        self.negative.insert(key, true);
        assert(self.negative@.dom() =~= old(self).negative@.dom().insert(key@));
    }
}

} // verus!
