//! Media helpers: file descriptions, data URIs and identicons.
use vstd::prelude::*;
use crate::text::{int_decimal, nat_decimal, push_decimal, push_signed_decimal, push_str, string_of};

verus! {

/// Media helpers exposed to scripts.
pub struct MediaUtils;

/// What a script learns about a file.
pub struct FileInfo {
    pub exists: bool,
    pub size_bytes: i64,
    pub extension: String,
    pub mime: String,
}

/// The extension that `std::path::Path::extension` finds in a path, or the
/// empty text where it finds none.
pub uninterp spec fn std_path_extension(path: Seq<char>) -> Seq<char>;

/// Calls `std::path::Path::extension` on `path`. Claimed: the result is a
/// function of the path alone, named `std_path_extension`.
#[verifier::external_body]
pub(crate) fn extension_of_path(path: &str) -> (r: String)
    ensures
        r@ == std_path_extension(path@),
{
    match std::path::Path::new(path).extension() {
        Some(e) => e.to_string_lossy().into_owned(),
        None => String::new(),
    }
}

/// The MIME type that `mime_guess` guesses for a path, with
/// `application/octet-stream` where it has no guess.
pub uninterp spec fn guessed_mime(path: Seq<char>) -> Seq<char>;

/// Calls `mime_guess::from_path(path).first_or_octet_stream()`. Claimed: the
/// text of the guessed type is a function of the path alone (the crate looks
/// the path's extension up in a fixed table), named `guessed_mime`.
#[verifier::external_body]
pub(crate) fn mime_for_path(path: &str) -> (r: String)
    ensures
        r@ == guessed_mime(path@),
{
    mime_guess::from_path(path).first_or_octet_stream().to_string()
}

/// The character of the standard base64 alphabet for a six-bit value:
/// `A`-`Z`, `a`-`z`, `0`-`9`, `+`, `/`.
pub open spec fn base64_char(v: int) -> char {
    if v < 26 {
        ('A' as int + v) as char
    } else if v < 52 {
        ('a' as int + (v - 26)) as char
    } else if v < 62 {
        ('0' as int + (v - 52)) as char
    } else if v == 62 {
        '+'
    } else {
        '/'
    }
}

/// The padded standard base64 encoding of a byte sequence: every group of
/// three bytes becomes four characters, six bits each, most significant
/// first; a last group of one or two bytes becomes two or three characters
/// (the missing bits zero) and `=` up to four.
pub open spec fn base64_standard(bytes: Seq<u8>) -> Seq<char>
    decreases bytes.len(),
{
    if bytes.len() == 0 {
        Seq::empty()
    } else if bytes.len() == 1 {
        let b0 = bytes[0] as int;
        seq![base64_char(b0 / 4), base64_char((b0 % 4) * 16), '=', '=']
    } else if bytes.len() == 2 {
        let b0 = bytes[0] as int;
        let b1 = bytes[1] as int;
        seq![base64_char(b0 / 4), base64_char((b0 % 4) * 16 + b1 / 16), base64_char((b1 % 16) * 4), '=']
    } else {
        let b0 = bytes[0] as int;
        let b1 = bytes[1] as int;
        let b2 = bytes[2] as int;
        seq![
            base64_char(b0 / 4),
            base64_char((b0 % 4) * 16 + b1 / 16),
            base64_char((b1 % 16) * 4 + b2 / 64),
            base64_char(b2 % 64),
        ] + base64_standard(bytes.skip(3))
    }
}

/// The length of the padded base64 text of `n` bytes.
pub open spec fn base64_len(n: nat) -> nat {
    (n + 2) / 3 * 4
}

/// Calls `base64::Engine::encode` with the `STANDARD` engine, which writes
/// the padded encoding with the standard alphabet (RFC 4648, section 4), as
/// the crate documents it and [`base64_standard`] states it. The engine
/// panics where the encoded length overflows `usize`, which `requires`
/// rules out.
#[verifier::external_body]
fn base64_encode(bytes: &[u8]) -> (r: String)
    requires
        base64_len(bytes@.len()) <= usize::MAX,
    ensures
        r@ == base64_standard(bytes@),
{
    base64::Engine::encode(&base64::engine::general_purpose::STANDARD, bytes)
}

/// The djb2 hash of a byte sequence on 64 bits: start at 5381, and for each
/// byte multiply by 33 and add the byte, wrapping.
pub open spec fn djb2(bytes: Seq<u8>) -> u64
    decreases bytes.len(),
{
    if bytes.len() == 0 {
        5381
    } else {
        ((djb2(bytes.drop_last()) as nat * 33 + bytes.last() as nat) % 0x1_0000_0000_0000_0000nat) as u64
    }
}

/// The side of the identicon image: `size`, or 120 where it is not positive.
pub open spec fn identicon_dim(size: i64) -> int {
    if size <= 0 {
        120
    } else {
        size as int
    }
}

/// Whether cell `k` (column `k / 5`, row `k % 5`) of the left half is filled:
/// bit `k` of the hash.
pub open spec fn cell_on(hash: u64, k: u64) -> bool {
    (hash >> k) & 1u64 == 1u64
}

/// One square of the identicon.
pub open spec fn rect_svg(x: int, y: int, cell: int, hue: nat) -> Seq<char> {
    "<rect x=\""@ + int_decimal(x) + "\" y=\""@ + int_decimal(y) + "\" width=\""@ + int_decimal(cell)
        + "\" height=\""@ + int_decimal(cell) + "\" fill=\"hsl("@ + nat_decimal(hue)
        + ", 70%, 50%)\"/>"@
}

/// The squares that cell `k` draws: none where its bit is clear; else the
/// square itself and, off the middle column, its mirror image.
pub open spec fn cell_svg(hash: u64, cell: int, hue: nat, k: u64) -> Seq<char> {
    let x = (k / 5) as int;
    let y = (k % 5) as int;
    if cell_on(hash, k) {
        rect_svg(x * cell, y * cell, cell, hue) + if x != 2 {
            rect_svg((4 - x) * cell, y * cell, cell, hue)
        } else {
            Seq::empty()
        }
    } else {
        Seq::empty()
    }
}

/// The squares of the first `n` cells, column by column.
pub open spec fn cells_svg(hash: u64, cell: int, hue: nat, n: nat) -> Seq<char>
    decreases n,
{
    if n == 0 {
        Seq::empty()
    } else {
        cells_svg(hash, cell, hue, (n - 1) as nat) + cell_svg(hash, cell, hue, (n - 1) as u64)
    }
}

/// The identicon SVG for the UTF-8 bytes of a seed.
pub open spec fn identicon_spec(seed: Seq<u8>, size: i64) -> Seq<char> {
    let dim = identicon_dim(size);
    let hash = djb2(seed);
    "<svg xmlns=\"http://www.w3.org/2000/svg\" width=\""@ + int_decimal(dim) + "\" height=\""@
        + int_decimal(dim) + "\" viewBox=\"0 0 "@ + int_decimal(dim) + " "@ + int_decimal(dim)
        + "\" style=\"background: rgba(0,0,0,0.2); border-radius: 8px;\">"@ + cells_svg(
        hash,
        dim / 5,
        (hash % 360) as nat,
        15,
    ) + "</svg>"@
}

fn push_rect(out: &mut Vec<char>, x: i64, y: i64, cell: i64, hue: u64)
    ensures
        final(out)@ == old(out)@ + rect_svg(x as int, y as int, cell as int, hue as nat),
{
    push_str(out, "<rect x=\"");
    push_signed_decimal(out, x);
    push_str(out, "\" y=\"");
    push_signed_decimal(out, y);
    push_str(out, "\" width=\"");
    push_signed_decimal(out, cell);
    push_str(out, "\" height=\"");
    push_signed_decimal(out, cell);
    push_str(out, "\" fill=\"hsl(");
    push_decimal(out, hue);
    push_str(out, ", 70%, 50%)\"/>");
}

/// The djb2 hash of the UTF-8 bytes of `seed`.
pub fn djb2_hash(seed: &str) -> (h: u64)
    ensures
        h == djb2(vstd::utf8::encode_utf8(seed@)),
{
    let bytes = seed.as_bytes();
    let mut hash: u64 = 5381;
    let mut i: usize = 0;
    while i < bytes.len()
        invariant
            i <= bytes@.len(),
            bytes@ == vstd::utf8::encode_utf8(seed@),
            hash == djb2(bytes@.take(i as int)),
        decreases bytes.len() - i,
    {
        assert(bytes@.take(i + 1).drop_last() =~= bytes@.take(i as int));
        let b = bytes[i];
        let ghost h0 = hash;
        hash = hash.wrapping_mul(33).wrapping_add(b as u64);
        proof {
            let m = 0x1_0000_0000_0000_0000int;
            assert(((h0 as int * 33) % m + b as int) % m == (h0 as int * 33 + b as int) % m) by {
                vstd::arithmetic::div_mod::lemma_add_mod_noop(h0 as int * 33, b as int, m);
                vstd::arithmetic::div_mod::lemma_small_mod(b as nat, m as nat);
            }
        }
        i = i + 1;
    }
    assert(bytes@.take(bytes@.len() as int) =~= bytes@);
    hash
}

impl MediaUtils {
    /// Describes a file from what the file system said of it: `Some` of its
    /// length in bytes where it exists, `None` where it does not.
    pub fn file_info(path_str: &str, metadata_len: Option<u64>) -> (info: FileInfo)
        ensures
            info.exists == metadata_len.is_some(),
            match metadata_len {
                Some(len) => {
                    &&& info.size_bytes == len as i64
                    &&& info.extension@ == std_path_extension(path_str@)
                    &&& info.mime@ == guessed_mime(path_str@)
                },
                None => {
                    &&& info.size_bytes == 0
                    &&& info.extension@ == Seq::<char>::empty()
                    &&& info.mime@ == Seq::<char>::empty()
                },
            },
    {
        match metadata_len {
            Some(len) => FileInfo {
                exists: true,
                size_bytes: len as i64,
                extension: extension_of_path(path_str),
                mime: mime_for_path(path_str),
            },
            None => FileInfo {
                exists: false,
                size_bytes: 0,
                extension: String::new(),
                mime: String::new(),
            },
        }
    }

    /// The data URI of a file from its contents: `Some` of the bytes where
    /// the file could be read, `None` where it could not (then the empty text).
    pub fn to_data_uri(path_str: &str, contents: Option<&[u8]>) -> (r: String)
        requires
            contents matches Some(b) ==> base64_len(b@.len()) <= usize::MAX,
        ensures
            r@ == match contents {
                Some(b) => "data:"@ + guessed_mime(path_str@) + ";base64,"@ + base64_standard(b@),
                None => Seq::<char>::empty(),
            },
    {
        match contents {
            Some(b) => {
                let mime = mime_for_path(path_str);
                let encoded = base64_encode(b);
                let mut out: Vec<char> = Vec::new();
                push_str(&mut out, "data:");
                push_str(&mut out, mime.as_str());
                push_str(&mut out, ";base64,");
                push_str(&mut out, encoded.as_str());
                string_of(&out)
            },
            None => String::new(),
        }
    }

    /// A symmetric 5x5 identicon for `seed`, `size` pixels wide (120 where
    /// `size` is not positive), coloured by the seed's hash.
    pub fn generate_identicon_svg(seed: &str, size: i64) -> (r: String)
        ensures
            r@ == identicon_spec(vstd::utf8::encode_utf8(seed@), size),
    {
        let dim: i64 = if size <= 0 {
            120
        } else {
            size
        };
        let hash = djb2_hash(seed);
        let hue: u64 = hash % 360;
        let cell: i64 = dim / 5;
        let mut rects: Vec<char> = Vec::new();
        let mut k: u64 = 0;
        while k < 15
            invariant
                k <= 15,
                0 < dim,
                cell == dim / 5,
                rects@ == cells_svg(hash, cell as int, hue as nat, k as nat),
            decreases 15 - k,
        {
            let x: i64 = (k / 5) as i64;
            let y: i64 = (k % 5) as i64;
            assert(0 <= cell <= i64::MAX / 5);
            assert(x * cell <= 4 * cell && (4 - x) * cell <= 4 * cell && y * cell <= 4 * cell
                && 0 <= x * cell && 0 <= (4 - x) * cell && 0 <= y * cell) by (nonlinear_arith)
                requires
                    0 <= x <= 2,
                    0 <= y <= 4,
                    0 <= cell,
            ;
            if (hash >> k) & 1 == 1 {
                push_rect(&mut rects, x * cell, y * cell, cell, hue);
                if x != 2 {
                    push_rect(&mut rects, (4 - x) * cell, y * cell, cell, hue);
                }
            }
            k = k + 1;
        }
        let mut out: Vec<char> = Vec::new();
        push_str(&mut out, "<svg xmlns=\"http://www.w3.org/2000/svg\" width=\"");
        push_signed_decimal(&mut out, dim);
        push_str(&mut out, "\" height=\"");
        push_signed_decimal(&mut out, dim);
        push_str(&mut out, "\" viewBox=\"0 0 ");
        push_signed_decimal(&mut out, dim);
        push_str(&mut out, " ");
        push_signed_decimal(&mut out, dim);
        push_str(&mut out, "\" style=\"background: rgba(0,0,0,0.2); border-radius: 8px;\">");
        crate::text::push_all(&mut out, &rects);
        push_str(&mut out, "</svg>");
        string_of(&out)
    }
}

} // verus!

verus! {

/// The squares at the given positions, in order, each `cell` wide and high
/// and filled with hue `hue`.
pub open spec fn rects_text(positions: Seq<(int, int)>, cell: int, hue: nat) -> Seq<char>
    decreases positions.len(),
{
    if positions.len() == 0 {
        Seq::empty()
    } else {
        rects_text(positions.drop_last(), cell, hue) + rect_svg(
            positions.last().0,
            positions.last().1,
            cell,
            hue,
        )
    }
}

/// The positions (in cells) of the squares that the first `n` cells draw.
pub open spec fn cell_positions(hash: u64, n: nat) -> Seq<(int, int)>
    decreases n,
{
    if n == 0 {
        Seq::empty()
    } else {
        let k = (n - 1) as u64;
        let x = (k / 5) as int;
        let y = (k % 5) as int;
        let before = cell_positions(hash, (n - 1) as nat);
        if !cell_on(hash, k) {
            before
        } else if x != 2 {
            before.push((x, y)).push((4 - x, y))
        } else {
            before.push((x, y))
        }
    }
}

/// The opening tag of an identicon of side `dim`.
pub open spec fn identicon_open(dim: int) -> Seq<char> {
    "<svg xmlns=\"http://www.w3.org/2000/svg\" width=\""@ + int_decimal(dim) + "\" height=\""@
        + int_decimal(dim) + "\" viewBox=\"0 0 "@ + int_decimal(dim) + " "@ + int_decimal(dim)
        + "\" style=\"background: rgba(0,0,0,0.2); border-radius: 8px;\">"@
}

proof fn lemma_cells_are_rects(hash: u64, cell: int, hue: nat, n: nat)
    ensures
        cells_svg(hash, cell, hue, n) == rects_text(
            Seq::new(
                cell_positions(hash, n).len(),
                |i: int| (cell_positions(hash, n)[i].0 * cell, cell_positions(hash, n)[i].1 * cell),
            ),
            cell,
            hue,
        ),
    decreases n,
{
    if n > 0 {
        lemma_cells_are_rects(hash, cell, hue, (n - 1) as nat);
        let k = (n - 1) as u64;
        let x = (k / 5) as int;
        let y = (k % 5) as int;
        let before = cell_positions(hash, (n - 1) as nat);
        let pb = Seq::new(before.len(), |i: int| (before[i].0 * cell, before[i].1 * cell));
        let cn = cell_positions(hash, n);
        let pn = Seq::new(cn.len(), |i: int| (cn[i].0 * cell, cn[i].1 * cell));
        assert(cells_svg(hash, cell, hue, n) == cells_svg(hash, cell, hue, (n - 1) as nat) + cell_svg(
            hash,
            cell,
            hue,
            k,
        ));
        if !cell_on(hash, k) {
            assert(pn =~= pb);
            assert(cell_svg(hash, cell, hue, k) =~= Seq::<char>::empty());
            assert(cells_svg(hash, cell, hue, n) =~= cells_svg(hash, cell, hue, (n - 1) as nat));
        } else if x != 2 {
            let p1 = pb.push((x * cell, y * cell));
            assert(pn =~= p1.push(((4 - x) * cell, y * cell)));
            assert(pn.drop_last() =~= p1);
            assert(p1.drop_last() =~= pb);
            assert(rects_text(p1, cell, hue) == rects_text(pb, cell, hue) + rect_svg(x * cell, y * cell, cell, hue));
            assert(rects_text(pn, cell, hue) == rects_text(p1, cell, hue) + rect_svg((4 - x) * cell, y * cell, cell, hue));
            assert(rects_text(pn, cell, hue) =~= rects_text(pb, cell, hue) + cell_svg(hash, cell, hue, k));
        } else {
            assert(pn =~= pb.push((x * cell, y * cell)));
            assert(pn.drop_last() =~= pb);
            assert(rects_text(pn, cell, hue) =~= rects_text(pb, cell, hue) + cell_svg(hash, cell, hue, k));
        }
    }
}

/// The identicon's shape: for every seed and size, the text is the opening
/// tag of side `dim` (the size, or 120 where it is not positive), then only
/// squares, all `dim / 5` wide and high and all of one hue below 360, then
/// `</svg>`. It depends on the seed and the size alone.
pub proof fn law_identicon_shape(seed: Seq<u8>, size: i64)
    ensures
        ({
            let dim = identicon_dim(size);
            let hue = (djb2(seed) % 360) as nat;
            let ps = cell_positions(djb2(seed), 15);
            &&& hue < 360
            &&& identicon_spec(seed, size) == identicon_open(dim) + rects_text(
                Seq::new(ps.len(), |i: int| (ps[i].0 * (dim / 5), ps[i].1 * (dim / 5))),
                dim / 5,
                hue,
            ) + "</svg>"@
        }),
{
    let dim = identicon_dim(size);
    lemma_cells_are_rects(djb2(seed), dim / 5, (djb2(seed) % 360) as nat, 15);
}

} // verus!
