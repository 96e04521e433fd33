//! ISIS3-style PDS3 text label: a flat per-image [`StorageModel`] written
//! as `Object = IsisCube` / `Object = Core` / `Group = Dimensions` and
//! `Group = Pixels`, and read back from `key = value` lines.
use crate::error::{Error, ErrorCode, Result};
use crate::io::backend::tiff::pixel_format::{lemma_pixel_names_distinct, pixel_type_name};
use crate::io::storage_model::StorageModel;
use crate::pixel_type::{is_integer_type, sample_bytes, PixelType};
use crate::text::{chars_of, str_eq, str_from_utf8, string_of_chars, utf8};
use vstd::prelude::*;
use vstd::utf8::*;

verus! {

broadcast use vstd::utf8::group_utf8_lib;

// ---------------------------------------------------------------------------
// Pixel types.
// ---------------------------------------------------------------------------

/// The ISIS3 `Type` keyword of a pixel type name.
pub open spec fn isis_type_of(pt: Seq<char>) -> Option<Seq<char>> {
    if pt == "UInt8"@ {
        Some("UnsignedByte"@)
    } else if pt == "UInt16"@ {
        Some("UnsignedWord"@)
    } else if pt == "UInt32"@ {
        Some("UnsignedInteger"@)
    } else if pt == "Float32"@ {
        Some("Real"@)
    } else if pt == "Float64"@ {
        Some("Double"@)
    } else {
        None
    }
}

/// The pixel type name of an ISIS3 `Type` keyword.
pub open spec fn pixel_type_of_isis(t: Seq<char>) -> Option<Seq<char>> {
    if t == "UnsignedByte"@ {
        Some("UInt8"@)
    } else if t == "UnsignedWord"@ {
        Some("UInt16"@)
    } else if t == "UnsignedInteger"@ {
        Some("UInt32"@)
    } else if t == "Real"@ {
        Some("Float32"@)
    } else if t == "Double"@ {
        Some("Float64"@)
    } else {
        None
    }
}

fn pixel_type_to_isis(pt: &str) -> (r: Option<&'static str>)
    ensures
        r matches Some(s) ==> isis_type_of(pt@) == Some(s@),
        r is None ==> isis_type_of(pt@) is None,
{
    if str_eq(pt, "UInt8") {
        Some("UnsignedByte")
    } else if str_eq(pt, "UInt16") {
        Some("UnsignedWord")
    } else if str_eq(pt, "UInt32") {
        Some("UnsignedInteger")
    } else if str_eq(pt, "Float32") {
        Some("Real")
    } else if str_eq(pt, "Float64") {
        Some("Double")
    } else {
        None
    }
}

fn isis_to_pixel_type(t: &str) -> (r: Option<&'static str>)
    ensures
        r matches Some(s) ==> pixel_type_of_isis(t@) == Some(s@),
        r is None ==> pixel_type_of_isis(t@) is None,
{
    if str_eq(t, "UnsignedByte") {
        Some("UInt8")
    } else if str_eq(t, "UnsignedWord") {
        Some("UInt16")
    } else if str_eq(t, "UnsignedInteger") {
        Some("UInt32")
    } else if str_eq(t, "Real") {
        Some("Float32")
    } else if str_eq(t, "Double") {
        Some("Float64")
    } else {
        None
    }
}

// ---------------------------------------------------------------------------
// Writing.
// ---------------------------------------------------------------------------

/// The line of an optional field `key` in `Core`, if the model has it.
pub open spec fn extra_line(m: Map<Seq<char>, Seq<char>>, key: Seq<char>) -> Seq<char> {
    if m.contains_key(key) {
        "          "@ + key + " = \""@ + m[key] + "\""@ + "\n"@
    } else {
        Seq::empty()
    }
}

/// The text of the label of a model with fields `m`, whose width, height,
/// samples per pixel and ISIS3 type are `w`, `h`, `b` and `t`.
pub open spec fn label_text(
    m: Map<Seq<char>, Seq<char>>,
    w: Seq<char>,
    h: Seq<char>,
    b: Seq<char>,
    t: Seq<char>,
) -> Seq<char> {
    let compression = if m.contains_key("compression"@) {
        m["compression"@]
    } else {
        "None"@
    };
    "Object = IsisCube\n"@ + "  Object = Core\n"@ + "    Group = Dimensions\n"@ + "      Samples = "@
        + w + "\n"@ + "      Lines = "@ + h + "\n"@ + "      Bands = "@ + b + "\n"@
        + "    End_Group\n"@ + "    Group = Pixels\n"@ + "      Type = "@ + t + "\n"@
        + "      ByteOrder = Lsb\n"@ + "      Compression = \""@ + compression + "\""@ + "\n"@
        + "    End_Group\n"@ + extra_line(m, "tileWidth"@) + extra_line(m, "tileHeight"@) + extra_line(
        m,
        "predictor"@,
    ) + extra_line(m, "container"@) + "  End_Object\n"@ + "End_Object\n"@ + "End\n"@
}

/// Whether the model has the four fields a label needs.
pub open spec fn has_label_fields(m: Map<Seq<char>, Seq<char>>) -> bool {
    &&& m.contains_key("imageWidth"@)
    &&& m.contains_key("imageHeight"@)
    &&& m.contains_key("samplesPerPixel"@)
    &&& m.contains_key("pixelType"@)
}

fn append_extra_field(out: &mut String, model: &StorageModel, key: &str)
    ensures
        final(out)@ == old(out)@ + extra_line(model.field_map(), key@),
{
    match model.field(key) {
        Ok(v) => {
            out.append("          ");
            out.append(key);
            out.append(" = \"");
            out.append(v);
            out.append("\"");
            out.append("\n");
            assert(out@ =~= old(out)@ + extra_line(model.field_map(), key@));
        },
        Err(_) => {
            assert(out@ =~= old(out)@ + extra_line(model.field_map(), key@));
        },
    }
}

/// Writes the ISIS3 label of a flat per-image model: its dimensions, its
/// pixel type as an ISIS3 `Type`, its compression (`"None"` when unset) and
/// the optional tile, predictor and container fields.
/// [`ErrorCode::InvalidArgument`] exactly when one of `imageWidth`,
/// `imageHeight`, `samplesPerPixel`, `pixelType` is missing or the pixel
/// type has no ISIS3 name.
pub fn write_label(model: &StorageModel) -> (r: Result<Vec<u8>>)
    ensures
        r is Ok <==> has_label_fields(model.field_map()) && isis_type_of(
            model.field_map()["pixelType"@],
        ) is Some,
        r matches Ok(v) ==> v@ == utf8(
            label_text(
                model.field_map(),
                model.field_map()["imageWidth"@],
                model.field_map()["imageHeight"@],
                model.field_map()["samplesPerPixel"@],
                isis_type_of(model.field_map()["pixelType"@])->0,
            ),
        ),
        r matches Err(e) ==> e.kind() == ErrorCode::InvalidArgument,
{
    let width = match model.field("imageWidth") {
        Ok(v) => v,
        Err(_) => {
            return Err(Error::invalid_argument("isis: label requires imageWidth"));
        },
    };
    let height = match model.field("imageHeight") {
        Ok(v) => v,
        Err(_) => {
            return Err(Error::invalid_argument("isis: label requires imageHeight"));
        },
    };
    let spp = match model.field("samplesPerPixel") {
        Ok(v) => v,
        Err(_) => {
            return Err(Error::invalid_argument("isis: label requires samplesPerPixel"));
        },
    };
    let ptype = match model.field("pixelType") {
        Ok(v) => v,
        Err(_) => {
            return Err(Error::invalid_argument("isis: label requires pixelType"));
        },
    };
    let isis_type = match pixel_type_to_isis(ptype) {
        Some(t) => t,
        None => {
            return Err(Error::invalid_argument("isis: unsupported pixelType in label"));
        },
    };
    let compression = match model.field("compression") {
        Ok(c) => c,
        Err(_) => "None",
    };
    let mut out = String::new();
    out.append("Object = IsisCube\n");
    out.append("  Object = Core\n");
    out.append("    Group = Dimensions\n");
    out.append("      Samples = ");
    out.append(width);
    out.append("\n");
    out.append("      Lines = ");
    out.append(height);
    out.append("\n");
    out.append("      Bands = ");
    out.append(spp);
    out.append("\n");
    out.append("    End_Group\n");
    out.append("    Group = Pixels\n");
    out.append("      Type = ");
    out.append(isis_type);
    out.append("\n");
    out.append("      ByteOrder = Lsb\n");
    out.append("      Compression = \"");
    out.append(compression);
    out.append("\"");
    out.append("\n");
    out.append("    End_Group\n");
    append_extra_field(&mut out, model, "tileWidth");
    append_extra_field(&mut out, model, "tileHeight");
    append_extra_field(&mut out, model, "predictor");
    append_extra_field(&mut out, model, "container");
    out.append("  End_Object\n");
    out.append("End_Object\n");
    out.append("End\n");
    let bytes = out.as_str().as_bytes_vec();
    Ok(bytes)
}

// ---------------------------------------------------------------------------
// Parsing.
// ---------------------------------------------------------------------------

/// Unicode `White_Space`, which `str::trim` removes.
pub open spec fn is_space(c: char) -> bool {
    let u = c as u32;
    (0x09 <= u <= 0x0D) || u == 0x20 || u == 0x85 || u == 0xA0 || u == 0x1680 || (0x2000 <= u
        <= 0x200A) || u == 0x2028 || u == 0x2029 || u == 0x202F || u == 0x205F || u == 0x3000
}

fn char_is_space(c: char) -> (r: bool)
    ensures
        r == is_space(c),
{
    let u = c as u32;
    (0x09 <= u && u <= 0x0D) || u == 0x20 || u == 0x85 || u == 0xA0 || u == 0x1680 || (0x2000 <= u
        && u <= 0x200A) || u == 0x2028 || u == 0x2029 || u == 0x202F || u == 0x205F || u == 0x3000
}

/// The first position in `i..end` holding `c`, or `end`.
pub open spec fn find_from(s: Seq<char>, c: char, i: int, end: int) -> int
    decreases end - i,
{
    if i >= end {
        end
    } else if s[i] == c {
        i
    } else {
        find_from(s, c, i + 1, end)
    }
}

/// The first occurrence found lies within the range searched.
pub proof fn lemma_find_from_bounds(s: Seq<char>, c: char, i: int, end: int)
    requires
        i <= end,
    ensures
        i <= find_from(s, c, i, end) <= end,
    decreases end - i,
{
    if i < end && s[i] != c {
        lemma_find_from_bounds(s, c, i + 1, end);
    }
}

/// The first position in `a..b` not holding white space, or `b`.
pub open spec fn skip_space(s: Seq<char>, a: int, b: int) -> int
    decreases b - a,
{
    if a < b && is_space(s[a]) {
        skip_space(s, a + 1, b)
    } else {
        a
    }
}

/// The end of `a..b` once trailing white space is dropped.
pub open spec fn skip_space_back(s: Seq<char>, a: int, b: int) -> int
    decreases b - a,
{
    if a < b && is_space(s[b - 1]) {
        skip_space_back(s, a, b - 1)
    } else {
        b
    }
}

/// `s[a..b]` without leading and trailing white space.
pub open spec fn trimmed(s: Seq<char>, a: int, b: int) -> Seq<char> {
    let a2 = skip_space(s, a, b);
    s.subrange(a2, skip_space_back(s, a2, b))
}

/// `v` without one pair of surrounding double quotes.
pub open spec fn unquote(v: Seq<char>) -> Seq<char> {
    if v.len() >= 2 && v[0] == '"' && v.last() == '"' {
        v.subrange(1, v.len() - 1)
    } else {
        v
    }
}

/// The end of the line `start..end` once a trailing carriage return is
/// dropped.
pub open spec fn content_end(s: Seq<char>, start: int, end: int) -> int {
    if end > start && s[end - 1] == '\r' {
        end - 1
    } else {
        end
    }
}

/// The `key = value` assignment of the line `s[start..end]`: the trimmed
/// text before its first `=` (if not empty), and the trimmed text after it
/// without surrounding quotes.
pub open spec fn line_assignment(s: Seq<char>, start: int, end: int) -> Option<(Seq<char>, Seq<char>)> {
    let ce = content_end(s, start, end);
    let eq = find_from(s, '=', start, ce);
    if eq >= ce {
        None
    } else {
        let key = trimmed(s, start, eq);
        if key.len() == 0 {
            None
        } else {
            Some((key, unquote(trimmed(s, eq + 1, ce))))
        }
    }
}

/// The assignments of the lines of `s` from `start` on, applied in order
/// to `m` (a later one for the same key wins).
pub open spec fn assignments_from(s: Seq<char>, start: int, m: Map<Seq<char>, Seq<char>>) -> Map<
    Seq<char>,
    Seq<char>,
>
    decreases s.len() - start,
{
    if start < 0 || start > s.len() {
        m
    } else {
        let end = find_from(s, '\n', start, s.len() as int);
        let m2 = match line_assignment(s, start, end) {
            Some(kv) => m.insert(kv.0, kv.1),
            None => m,
        };
        proof {
            lemma_find_from_bounds(s, '\n', start, s.len() as int);
        }
        if end >= s.len() {
            m2
        } else {
            assignments_from(s, end + 1, m2)
        }
    }
}

/// All assignments of a label, a later one for the same key winning.
pub open spec fn assignments(s: Seq<char>) -> Map<Seq<char>, Seq<char>> {
    assignments_from(s, 0, Map::empty())
}

/// Whether `pat` occurs in `s`.
pub open spec fn contains_seq(s: Seq<char>, pat: Seq<char>) -> bool {
    exists|i: int| 0 <= i && i + pat.len() <= s.len() && #[trigger] s.subrange(i, i + pat.len()) == pat
}

/// The fields of the model a label with assignments `kv` gives: the
/// dimensions, the pixel type, the compression (`"None"` when absent) and
/// the optional fields present.
pub open spec fn parsed_fields(kv: Map<Seq<char>, Seq<char>>) -> Map<Seq<char>, Seq<char>> {
    let compression = if kv.contains_key("Compression"@) {
        kv["Compression"@]
    } else {
        "None"@
    };
    let base = Map::<Seq<char>, Seq<char>>::empty().insert("imageWidth"@, kv["Samples"@]).insert(
        "imageHeight"@,
        kv["Lines"@],
    ).insert("samplesPerPixel"@, kv["Bands"@]).insert(
        "pixelType"@,
        pixel_type_of_isis(kv["Type"@])->0,
    ).insert("compression"@, compression);
    with_extra(
        with_extra(with_extra(with_extra(base, kv, "tileWidth"@), kv, "tileHeight"@), kv, "predictor"@),
        kv,
        "container"@,
    )
}

/// `m` with `key` copied from `kv` when it is there.
pub open spec fn with_extra(m: Map<Seq<char>, Seq<char>>, kv: Map<Seq<char>, Seq<char>>, key: Seq<char>) -> Map<
    Seq<char>,
    Seq<char>,
> {
    if kv.contains_key(key) {
        m.insert(key, kv[key])
    } else {
        m
    }
}

/// Whether a label text with assignments `kv` is a readable ISIS3 label.
pub open spec fn label_readable(text: Seq<char>, kv: Map<Seq<char>, Seq<char>>) -> bool {
    &&& contains_seq(text, "Object = IsisCube"@)
    &&& kv.contains_key("Samples"@)
    &&& kv.contains_key("Lines"@)
    &&& kv.contains_key("Bands"@)
    &&& kv.contains_key("Type"@)
    &&& pixel_type_of_isis(kv["Type"@]) is Some
}

fn contains_chars(s: &Vec<char>, pat: &Vec<char>) -> (r: bool)
    ensures
        r == contains_seq(s@, pat@),
{
    let n = s.len();
    let m = pat.len();
    if m > n {
        assert forall|i: int| 0 <= i && i + pat@.len() <= s@.len() implies #[trigger] s@.subrange(
            i,
            i + pat@.len(),
        ) != pat@ by {}
        return false;
    }
    let mut i: usize = 0;
    while i <= n - m
        invariant
            m <= n,
            n == s@.len(),
            m == pat@.len(),
            forall|k: int| 0 <= k < i ==> #[trigger] s@.subrange(k, k + m) != pat@,
        decreases n - m + 1 - i,
    {
        let mut j: usize = 0;
        while j < m && s[i + j] == pat[j]
            invariant
                i + m <= n,
                n == s@.len(),
                m == pat@.len(),
                j <= m,
                forall|k: int| 0 <= k < j ==> s@[i + k] == pat@[k],
            decreases m - j,
        {
            j = j + 1;
        }
        if j == m {
            assert(s@.subrange(i as int, i + m) =~= pat@);
            return true;
        }
        assert(s@.subrange(i as int, i + m)[j as int] != pat@[j as int]);
        i = i + 1;
    }
    false
}

fn find_char(s: &Vec<char>, c: char, i: usize, end: usize) -> (r: usize)
    requires
        i <= end <= s@.len(),
    ensures
        r == find_from(s@, c, i as int, end as int),
        i <= r <= end,
{
    let mut k = i;
    while k < end && s[k] != c
        invariant
            i <= k <= end <= s@.len(),
            find_from(s@, c, k as int, end as int) == find_from(s@, c, i as int, end as int),
        decreases end - k,
    {
        k = k + 1;
    }
    k
}

/// The range of `s[a..b]` without leading and trailing white space.
fn trim_range(s: &Vec<char>, a: usize, b: usize) -> (r: (usize, usize))
    requires
        a <= b <= s@.len(),
    ensures
        a <= r.0 <= r.1 <= b,
        s@.subrange(r.0 as int, r.1 as int) == trimmed(s@, a as int, b as int),
{
    let mut x = a;
    while x < b && char_is_space(s[x])
        invariant
            a <= x <= b <= s@.len(),
            skip_space(s@, x as int, b as int) == skip_space(s@, a as int, b as int),
        decreases b - x,
    {
        x = x + 1;
    }
    let mut y = b;
    while y > x && char_is_space(s[y - 1])
        invariant
            x <= y <= b <= s@.len(),
            skip_space_back(s@, x as int, y as int) == skip_space_back(s@, x as int, b as int),
        decreases y - x,
    {
        y = y - 1;
    }
    (x, y)
}

/// Parses an ISIS3 label into the flat per-image model it describes: the
/// `key = value` lines give `Samples`, `Lines`, `Bands`, `Type` and the
/// optional fields ([`parsed_fields`]). [`ErrorCode::InvalidArgument`]
/// exactly when the bytes are not UTF-8, the text lacks
/// `Object = IsisCube`, or a dimension or a known `Type` is missing.
pub fn parse_label(label_text: &[u8]) -> (r: Result<StorageModel>)
    ensures
        r is Ok <==> valid_utf8(label_text@) && label_readable(
            decode_utf8(label_text@),
            assignments(decode_utf8(label_text@)),
        ),
        r matches Ok(m) ==> m.field_map() == parsed_fields(assignments(decode_utf8(label_text@)))
            && m.child_nodes().len() == 0,
        r matches Err(e) ==> e.kind() == ErrorCode::InvalidArgument,
{
    let label = match str_from_utf8(label_text) {
        Some(s) => s,
        None => {
            return Err(Error::invalid_argument("isis: label is not valid UTF-8"));
        },
    };
    proof {
        assert(decode_utf8(label_text@) == label@) by {
            assert(decode_utf8(utf8(label@)) == label@);
        }
    }
    let chars = chars_of(label);
    let pat = chars_of("Object = IsisCube");
    if !contains_chars(&chars, &pat) {
        return Err(Error::invalid_argument("isis: not an ISIS3 label (missing IsisCube object)"));
    }
    let kv = collect_assignments(&chars);
    let w = match kv.field("Samples") {
        Ok(v) => v,
        Err(_) => {
            return Err(Error::invalid_argument("isis: label missing Dimensions/Pixels values"));
        },
    };
    let h = match kv.field("Lines") {
        Ok(v) => v,
        Err(_) => {
            return Err(Error::invalid_argument("isis: label missing Dimensions/Pixels values"));
        },
    };
    let b = match kv.field("Bands") {
        Ok(v) => v,
        Err(_) => {
            return Err(Error::invalid_argument("isis: label missing Dimensions/Pixels values"));
        },
    };
    let t = match kv.field("Type") {
        Ok(v) => v,
        Err(_) => {
            return Err(Error::invalid_argument("isis: label missing Dimensions/Pixels values"));
        },
    };
    let iso_type = match isis_to_pixel_type(t) {
        Some(p) => p,
        None => {
            return Err(Error::invalid_argument("isis: unrecognized pixel Type in label"));
        },
    };
    let mut model = StorageModel::new();
    model.set_field("imageWidth", w);
    model.set_field("imageHeight", h);
    model.set_field("samplesPerPixel", b);
    model.set_field("pixelType", iso_type);
    match kv.field("Compression") {
        Ok(c) => model.set_field("compression", c),
        Err(_) => model.set_field("compression", "None"),
    }
    copy_extra_field(&mut model, &kv, "tileWidth");
    copy_extra_field(&mut model, &kv, "tileHeight");
    copy_extra_field(&mut model, &kv, "predictor");
    copy_extra_field(&mut model, &kv, "container");
    assert(model.field_map() =~= parsed_fields(kv.field_map()));
    Ok(model)
}

fn copy_extra_field(model: &mut StorageModel, kv: &StorageModel, key: &str)
    ensures
        final(model).field_map() == with_extra(old(model).field_map(), kv.field_map(), key@),
        final(model).child_nodes() == old(model).child_nodes(),
{
    match kv.field(key) {
        Ok(v) => model.set_field(key, v),
        Err(_) => {},
    }
}

/// Every `key = value` line of `chars`, in order, into a model's fields.
fn collect_assignments(chars: &Vec<char>) -> (kv: StorageModel)
    ensures
        kv.field_map() == assignments(chars@),
{
    let ghost s = chars@;
    let n = chars.len();
    let mut kv = StorageModel::new();
    let mut start: usize = 0;
    loop
        invariant
            s == chars@,
            n == s.len(),
            start <= n,
            assignments_from(s, start as int, kv.field_map()) == assignments(s),
        decreases n - start,
    {
        let ghost m0 = kv.field_map();
        let end = find_char(chars, '\n', start, n);
        let mut ce = end;
        if ce > start && chars[ce - 1] == '\r' {
            ce = ce - 1;
        }
        assert(ce == content_end(s, start as int, end as int));
        let eq = find_char(chars, '=', start, ce);
        if eq < ce {
            let (ks, ke) = trim_range(chars, start, eq);
            if ks < ke {
                let (vs0, ve0) = trim_range(chars, eq + 1, ce);
                let mut vs = vs0;
                let mut ve = ve0;
                let ghost v0 = s.subrange(vs0 as int, ve0 as int);
                if ve - vs >= 2 && chars[vs] == '"' && chars[ve - 1] == '"' {
                    vs = vs + 1;
                    ve = ve - 1;
                    assert(s.subrange(vs as int, ve as int) =~= v0.subrange(1, v0.len() - 1));
                }
                assert(s.subrange(vs as int, ve as int) == unquote(v0));
                let key = string_of_chars(vstd::slice::slice_subrange(chars.as_slice(), ks, ke));
                let value = string_of_chars(vstd::slice::slice_subrange(chars.as_slice(), vs, ve));
                kv.set_field(key.as_str(), value.as_str());
                assert(line_assignment(s, start as int, end as int) == Some(
                    (s.subrange(ks as int, ke as int), s.subrange(vs as int, ve as int)),
                ));
            } else {
                assert(line_assignment(s, start as int, end as int) is None);
            }
        } else {
            assert(line_assignment(s, start as int, end as int) is None);
        }
        if end >= n {
            return kv;
        }
        start = end + 1;
    }
}

/// The sample an ISIS3 `Type` keyword describes: its byte width and
/// whether it is an unsigned integer (else an IEEE float), as ISIS3
/// defines them.
pub open spec fn isis_type_sample(t: Seq<char>) -> Option<(nat, bool)> {
    if t == "UnsignedByte"@ {
        Some((1, true))
    } else if t == "UnsignedWord"@ {
        Some((2, true))
    } else if t == "UnsignedInteger"@ {
        Some((4, true))
    } else if t == "Real"@ {
        Some((4, false))
    } else if t == "Double"@ {
        Some((8, false))
    } else {
        None
    }
}

/// The `Type` a label writes for every pixel type describes a sample of
/// that type's width and kind, and reads back as that type.
pub proof fn lemma_isis_type_describes_pixel_type(p: PixelType)
    ensures
        isis_type_of(pixel_type_name(p)) is Some,
        isis_type_sample(isis_type_of(pixel_type_name(p))->0) == Some((sample_bytes(p), is_integer_type(p))),
        pixel_type_of_isis(isis_type_of(pixel_type_name(p))->0) == Some(pixel_type_name(p)),
{
    lemma_isis_literals();
    lemma_pixel_names_distinct();
}

/// A `Type` that is read as a pixel type describes a sample of that
/// type's width and kind.
pub proof fn lemma_read_isis_type_describes_pixel_type(t: Seq<char>, p: PixelType)
    requires
        pixel_type_of_isis(t) == Some(pixel_type_name(p)),
    ensures
        isis_type_sample(t) == Some((sample_bytes(p), is_integer_type(p))),
{
    lemma_isis_literals();
    lemma_pixel_names_distinct();
}

proof fn lemma_isis_literals()
    ensures
        "UnsignedByte"@ != "UnsignedWord"@,
        "UnsignedByte"@ != "UnsignedInteger"@,
        "UnsignedByte"@ != "Real"@,
        "UnsignedByte"@ != "Double"@,
        "UnsignedWord"@ != "UnsignedInteger"@,
        "UnsignedWord"@ != "Real"@,
        "UnsignedWord"@ != "Double"@,
        "UnsignedInteger"@ != "Real"@,
        "UnsignedInteger"@ != "Double"@,
        "Real"@ != "Double"@,
{
    reveal_strlit("UnsignedByte");
    reveal_strlit("UnsignedWord");
    reveal_strlit("UnsignedInteger");
    reveal_strlit("Real");
    reveal_strlit("Double");
    assert("UnsignedByte"@[8] != "UnsignedWord"@[8]);
    assert("UnsignedByte"@.len() == 12 && "UnsignedWord"@.len() == 12 && "UnsignedInteger"@.len() == 15);
    assert("Real"@.len() == 4 && "Double"@.len() == 6);
}

} // verus!
