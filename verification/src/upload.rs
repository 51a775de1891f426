//! Photo uploads: what a file's first bytes say it is, file name extensions,
//! content types, and the checks a request passes before a photo is stored.
use vstd::prelude::*;
use base64::Engine;
use crate::db::ClanTrailDb;
use crate::error::AppError;
use crate::models::{EntityType, NewImage, entity_type_parse};
use crate::db::concat_str;
use crate::store::{has_key, opt_view};
use crate::text::{chars_of, str_eq, string_from_chars, string_of};

verus! {

// ---------------------------------------------------------------------------
// File signatures
// ---------------------------------------------------------------------------

/// `b` begins with the bytes `p`.
pub open spec fn starts_with(b: Seq<u8>, p: Seq<u8>) -> bool {
    p.len() <= b.len() && b.take(p.len() as int) == p
}

/// The image format that the first twelve bytes of a file announce: JPEG,
/// PNG, GIF, WebP (a RIFF container) or HEIC (an ISO media file of a HEIF
/// brand). Shorter files announce none.
pub open spec fn image_kind(b: Seq<u8>) -> Option<Seq<char>> {
    if b.len() < 12 {
        None
    } else if starts_with(b, seq![0xFFu8, 0xD8, 0xFF]) {
        Some("jpg"@)
    } else if starts_with(b, seq![0x89u8, 0x50, 0x4E, 0x47, 0x0D, 0x0A, 0x1A, 0x0A]) {
        Some("png"@)
    } else if starts_with(b, seq![0x47u8, 0x49, 0x46, 0x38]) {
        Some("gif"@)
    } else if starts_with(b, seq![0x52u8, 0x49, 0x46, 0x46]) && b.subrange(8, 12) == seq![0x57u8, 0x45, 0x42, 0x50] {
        Some("webp"@)
    } else if b.subrange(4, 8) == seq![0x66u8, 0x74, 0x79, 0x70] && heif_brand(b.subrange(8, 12)) {
        Some("heic"@)
    } else {
        None
    }
}

/// The brands of HEIF images: heic, mif1, hevc, avci, hevx.
pub open spec fn heif_brand(b: Seq<u8>) -> bool {
    ||| b == seq![0x68u8, 0x65, 0x69, 0x63]
    ||| b == seq![0x6Du8, 0x69, 0x66, 0x31]
    ||| b == seq![0x68u8, 0x65, 0x76, 0x63]
    ||| b == seq![0x61u8, 0x76, 0x63, 0x69]
    ||| b == seq![0x68u8, 0x65, 0x76, 0x78]
}

fn bytes_at(b: &[u8], at: usize, x0: u8, x1: u8, x2: u8, x3: u8) -> (r: bool)
    requires
        at + 4 <= b@.len(),
    ensures
        r == (b@.subrange(at as int, at + 4) == seq![x0, x1, x2, x3]),
{
    let r = b[at] == x0 && b[at + 1] == x1 && b[at + 2] == x2 && b[at + 3] == x3;
    proof {
        if r {
            assert(b@.subrange(at as int, at + 4) =~= seq![x0, x1, x2, x3]);
        } else {
            if b@.subrange(at as int, at + 4) == seq![x0, x1, x2, x3] {
                assert(b@.subrange(at as int, at + 4)[0] == x0);
                assert(b@.subrange(at as int, at + 4)[1] == x1);
                assert(b@.subrange(at as int, at + 4)[2] == x2);
                assert(b@.subrange(at as int, at + 4)[3] == x3);
            }
        }
    }
    r
}

/// The image format that a file's first bytes announce, by the rules of
/// `image_kind`.
pub fn detect_image_kind(bytes: &[u8]) -> (r: Option<&'static str>)
    ensures
        match r {
            Some(k) => image_kind(bytes@) == Some(k@),
            None => image_kind(bytes@) is None,
        },
{
    if bytes.len() < 12 {
        return None;
    }
    let ghost b = bytes@;
    assert(b.take(3) =~= b.subrange(0, 3));
    assert(b.take(4) =~= b.subrange(0, 4));
    assert(b.take(8) =~= b.subrange(0, 8));
    let jpeg = bytes[0] == 0xFF && bytes[1] == 0xD8 && bytes[2] == 0xFF;
    proof {
        if jpeg {
            assert(b.take(3) =~= seq![0xFFu8, 0xD8, 0xFF]);
        } else if b.take(3) == seq![0xFFu8, 0xD8, 0xFF] {
            assert(b.take(3)[0] == 0xFF && b.take(3)[1] == 0xD8 && b.take(3)[2] == 0xFF);
        }
    }
    if jpeg {
        return Some("jpg");
    }
    let png = bytes_at(bytes, 0, 0x89, 0x50, 0x4E, 0x47) && bytes_at(bytes, 4, 0x0D, 0x0A, 0x1A, 0x0A);
    proof {
        let sig = seq![0x89u8, 0x50, 0x4E, 0x47, 0x0D, 0x0A, 0x1A, 0x0A];
        if png {
            assert(b.take(8) =~= sig);
        } else if b.take(8) == sig {
            assert(b.subrange(0, 4) =~= sig.subrange(0, 4));
            assert(b.subrange(4, 8) =~= sig.subrange(4, 8));
            assert(sig.subrange(0, 4) =~= seq![0x89u8, 0x50, 0x4E, 0x47]);
            assert(sig.subrange(4, 8) =~= seq![0x0Du8, 0x0A, 0x1A, 0x0A]);
        }
    }
    if png {
        return Some("png");
    }
    if bytes_at(bytes, 0, 0x47, 0x49, 0x46, 0x38) {
        return Some("gif");
    }
    if bytes_at(bytes, 0, 0x52, 0x49, 0x46, 0x46) && bytes_at(bytes, 8, 0x57, 0x45, 0x42, 0x50) {
        return Some("webp");
    }
    if bytes_at(bytes, 4, 0x66, 0x74, 0x79, 0x70) {
        if bytes_at(bytes, 8, 0x68, 0x65, 0x69, 0x63) || bytes_at(bytes, 8, 0x6D, 0x69, 0x66, 0x31)
            || bytes_at(bytes, 8, 0x68, 0x65, 0x76, 0x63) || bytes_at(bytes, 8, 0x61, 0x76, 0x63, 0x69)
            || bytes_at(bytes, 8, 0x68, 0x65, 0x76, 0x78) {
            return Some("heic");
        }
    }
    None
}

// ---------------------------------------------------------------------------
// File names
// ---------------------------------------------------------------------------

/// The position of the last `c` in `s`, if any.
pub open spec fn last_index_of(s: Seq<char>, c: char) -> Option<int>
    decreases s.len(),
{
    if s.len() == 0 {
        None
    } else if s.last() == c {
        Some(s.len() - 1)
    } else {
        last_index_of(s.drop_last(), c)
    }
}

pub proof fn lemma_last_index_of(s: Seq<char>, c: char)
    ensures
        match last_index_of(s, c) {
            Some(i) => 0 <= i < s.len() && s[i] == c && forall|j: int| i < j < s.len() ==> s[j] != c,
            None => forall|j: int| 0 <= j < s.len() ==> s[j] != c,
        },
    decreases s.len(),
{
    if s.len() > 0 && s.last() != c {
        lemma_last_index_of(s.drop_last(), c);
        assert forall|j: int| 0 <= j < s.len() - 1 implies s.drop_last()[j] == s[j] by {}
    }
}

/// The last component of a `/`-separated path, as a file name: empty and
/// `.` components are skipped, and a path that ends in `..` or has no
/// component left has none.
pub open spec fn file_name(p: Seq<char>) -> Option<Seq<char>>
    decreases p.len(),
{
    match last_index_of(p, '/') {
        Some(i) => {
            proof {
                lemma_last_index_of(p, '/');
            }
            let seg = p.subrange(i + 1, p.len() as int);
            if seg.len() == 0 || seg == seq!['.'] {
                file_name(p.subrange(0, i))
            } else if seg == seq!['.', '.'] {
                None
            } else {
                Some(seg)
            }
        },
        None => {
            if p.len() == 0 || p == seq!['.'] || p == seq!['.', '.'] {
                None
            } else {
                Some(p)
            }
        },
    }
}

/// The extension of a path's file name: what follows its last `.`, unless
/// the name has no `.` or its only `.` is the first character.
pub open spec fn extension(p: Seq<char>) -> Option<Seq<char>> {
    match file_name(p) {
        Some(n) => match last_index_of(n, '.') {
            Some(j) => if j == 0 { None } else { Some(n.subrange(j + 1, n.len() as int)) },
            None => None,
        },
        None => None,
    }
}

/// A character with ASCII capitals made small.
pub open spec fn ascii_lower(c: char) -> char {
    if 'A' <= c <= 'Z' { ((c as u32) + 32) as char } else { c }
}

pub open spec fn lower_text(s: Seq<char>) -> Seq<char> {
    s.map_values(|c: char| ascii_lower(c))
}

/// The extension under which an upload is stored: the file name's extension
/// in small letters, `bin` where there is none.
pub open spec fn upload_ext(name: Option<Seq<char>>) -> Seq<char> {
    match name {
        Some(n) => match extension(n) {
            Some(e) => lower_text(e),
            None => "bin"@,
        },
        None => "bin"@,
    }
}

/// The extensions of the image formats that are accepted.
pub open spec fn allowed_ext(e: Seq<char>) -> bool {
    ||| e == "jpg"@
    ||| e == "jpeg"@
    ||| e == "png"@
    ||| e == "gif"@
    ||| e == "webp"@
    ||| e == "heic"@
    ||| e == "heif"@
}

/// The content type served for a file, by its extension (any case).
pub open spec fn mime_of(p: Seq<char>) -> Seq<char> {
    match extension(p) {
        Some(e) => {
            let l = lower_text(e);
            if l == "jpg"@ || l == "jpeg"@ {
                "image/jpeg"@
            } else if l == "png"@ {
                "image/png"@
            } else if l == "gif"@ {
                "image/gif"@
            } else if l == "webp"@ {
                "image/webp"@
            } else if l == "heic"@ {
                "image/heic"@
            } else if l == "heif"@ {
                "image/heif"@
            } else {
                "application/octet-stream"@
            }
        },
        None => "application/octet-stream"@,
    }
}

fn last_index(v: &Vec<char>, end: usize, c: char) -> (r: Option<usize>)
    requires
        end <= v@.len(),
    ensures
        match r {
            Some(i) => last_index_of(v@.take(end as int), c) == Some(i as int) && i < end,
            None => last_index_of(v@.take(end as int), c) is None,
        },
{
    let mut k: usize = end;
    while k > 0
        invariant
            k <= end <= v@.len(),
            last_index_of(v@.take(end as int), c) == last_index_of(v@.take(k as int), c),
        decreases k,
    {
        assert(v@.take(k as int).drop_last() =~= v@.take(k as int - 1));
        if v[k - 1] == c {
            return Some(k - 1);
        }
        k = k - 1;
    }
    None
}

fn is_dot_run(v: &Vec<char>, from: usize, to: usize, n: usize) -> (r: bool)
    requires
        from <= to <= v@.len(),
        1 <= n <= 2,
    ensures
        r == (v@.subrange(from as int, to as int) == Seq::new(n as nat, |i: int| '.')),
{
    if to - from != n {
        proof {
            if v@.subrange(from as int, to as int) == Seq::new(n as nat, |i: int| '.') {
                assert(v@.subrange(from as int, to as int).len() == n);
            }
        }
        return false;
    }
    let r = v[from] == '.' && (n == 1 || v[from + 1] == '.');
    proof {
        let s = v@.subrange(from as int, to as int);
        if r {
            assert(s =~= Seq::new(n as nat, |i: int| '.'));
        } else if s == Seq::new(n as nat, |i: int| '.') {
            assert(s[0] == '.');
            if n == 2 {
                assert(s[1] == '.');
            }
        }
    }
    r
}

/// The file name of a path (see `file_name`), as the span of its characters.
fn file_name_span(v: &Vec<char>) -> (r: Option<(usize, usize)>)
    ensures
        match r {
            Some((a, b)) => a <= b <= v@.len() && file_name(v@) == Some(v@.subrange(a as int, b as int)),
            None => file_name(v@) is None,
        },
{
    let mut end: usize = v.len();
    assert(v@.take(end as int) =~= v@);
    loop
        invariant
            end <= v@.len(),
            file_name(v@) == file_name(v@.take(end as int)),
        decreases end,
    {
        let ghost p = v@.take(end as int);
        match last_index(v, end, '/') {
            Some(i) => {
                assert(p.subrange(i + 1, p.len() as int) =~= v@.subrange(i + 1, end as int));
                assert(p.subrange(0, i as int) =~= v@.take(i as int));
                assert(seq!['.'] =~= Seq::new(1, |k: int| '.'));
                assert(seq!['.', '.'] =~= Seq::new(2, |k: int| '.'));
                if i + 1 == end || is_dot_run(v, i + 1, end, 1) {
                    end = i;
                } else if is_dot_run(v, i + 1, end, 2) {
                    return None;
                } else {
                    return Some((i + 1, end));
                }
            },
            None => {
                assert(seq!['.'] =~= Seq::new(1, |k: int| '.'));
                assert(seq!['.', '.'] =~= Seq::new(2, |k: int| '.'));
                assert(p =~= v@.subrange(0, end as int));
                if end == 0 || is_dot_run(v, 0, end, 1) || is_dot_run(v, 0, end, 2) {
                    return None;
                }
                return Some((0, end));
            },
        }
    }
}

/// The extension of a path's file name (see `extension`), if it has one.
pub fn file_extension(path: &str) -> (r: Option<String>)
    ensures
        match r {
            Some(e) => extension(path@) == Some(e@),
            None => extension(path@) is None,
        },
{
    let v = chars_of(path);
    match file_name_span(&v) {
        Some((a, b)) => {
            let ghost n = v@.subrange(a as int, b as int);
            let mut name: Vec<char> = Vec::new();
            let mut k: usize = a;
            while k < b
                invariant
                    a <= k <= b <= v@.len(),
                    name@ == v@.subrange(a as int, k as int),
                decreases b - k,
            {
                name.push(v[k]);
                assert(v@.subrange(a as int, k + 1) =~= v@.subrange(a as int, k as int).push(v@[k as int]));
                k = k + 1;
            }
            assert(name@ =~= n);
            let len = name.len();
            assert(name@.take(len as int) =~= name@);
            match last_index(&name, len, '.') {
                Some(j) => {
                    if j == 0 {
                        None
                    } else {
                        let mut e: Vec<char> = Vec::new();
                        let mut t: usize = j + 1;
                        while t < len
                            invariant
                                j + 1 <= t <= len == name@.len(),
                                e@ == name@.subrange(j + 1, t as int),
                            decreases len - t,
                        {
                            e.push(name[t]);
                            assert(name@.subrange(j + 1, t + 1) =~= name@.subrange(j + 1, t as int).push(name@[t as int]));
                            t = t + 1;
                        }
                        Some(string_from_chars(&e))
                    }
                },
                None => None,
            }
        },
        None => None,
    }
}

fn lower_char(c: char) -> (r: char)
    ensures
        r == ascii_lower(c),
{
    if 'A' <= c && c <= 'Z' {
        let b: u8 = (c as u8) + 32;
        let r = b as char;
        assert(r == ((c as u32) + 32) as char);
        r
    } else {
        c
    }
}

/// A text with its ASCII capitals made small.
pub fn to_ascii_lower(s: &str) -> (r: String)
    ensures
        r@ == lower_text(s@),
{
    let v = chars_of(s);
    let mut out: Vec<char> = Vec::new();
    let mut i: usize = 0;
    while i < v.len()
        invariant
            i <= v@.len(),
            v@ == s@,
            out@ == lower_text(v@.take(i as int)),
        decreases v.len() - i,
    {
        out.push(lower_char(v[i]));
        assert(lower_text(v@.take(i + 1)) =~= lower_text(v@.take(i as int)).push(ascii_lower(v@[i as int])));
        i = i + 1;
    }
    assert(v@.take(v.len() as int) =~= v@);
    string_from_chars(&out)
}

/// The extension an upload is stored under (see `upload_ext`).
pub fn upload_extension(file_name: &Option<String>) -> (r: String)
    ensures
        r@ == upload_ext(match *file_name { Some(n) => Some(n@), None => None }),
{
    match file_name {
        Some(n) => match file_extension(n.as_str()) {
            Some(e) => to_ascii_lower(e.as_str()),
            None => string_of("bin"),
        },
        None => string_of("bin"),
    }
}

/// Whether an extension names an accepted image format.
pub fn is_allowed_ext(e: &str) -> (r: bool)
    ensures
        r == allowed_ext(e@),
{
    str_eq(e, "jpg") || str_eq(e, "jpeg") || str_eq(e, "png") || str_eq(e, "gif") || str_eq(e, "webp")
        || str_eq(e, "heic") || str_eq(e, "heif")
}

/// The content type served for a file (see `mime_of`).
pub fn mime_type(path: &str) -> (r: &'static str)
    ensures
        r@ == mime_of(path@),
{
    match file_extension(path) {
        Some(e) => {
            let l = to_ascii_lower(e.as_str());
            let l = l.as_str();
            if str_eq(l, "jpg") || str_eq(l, "jpeg") {
                "image/jpeg"
            } else if str_eq(l, "png") {
                "image/png"
            } else if str_eq(l, "gif") {
                "image/gif"
            } else if str_eq(l, "webp") {
                "image/webp"
            } else if str_eq(l, "heic") {
                "image/heic"
            } else if str_eq(l, "heif") {
                "image/heif"
            } else {
                "application/octet-stream"
            }
        },
        None => "application/octet-stream",
    }
}


// ---------------------------------------------------------------------------
// Checks of an upload request
// ---------------------------------------------------------------------------

/// The number of bytes of a character in UTF-8.
pub open spec fn utf8_width(c: char) -> nat {
    let v = c as u32;
    if v < 0x80 { 1 } else if v < 0x800 { 2 } else if v < 0x10000 { 3 } else { 4 }
}

/// The number of bytes of a text in UTF-8.
pub open spec fn utf8_len(s: Seq<char>) -> nat
    decreases s.len(),
{
    if s.len() == 0 { 0 } else { utf8_len(s.drop_last()) + utf8_width(s.last()) }
}

/// The longest entity id an upload may name, in bytes.
pub const MAX_ENTITY_ID: usize = 128;

/// The longest caption an upload may carry, in bytes.
pub const MAX_CAPTION: usize = 1024;

/// Whether a text takes more than `limit` bytes in UTF-8.
pub fn utf8_longer_than(s: &str, limit: usize) -> (r: bool)
    ensures
        r == (utf8_len(s@) > limit),
{
    let v = chars_of(s);
    let mut total: usize = 0;
    let mut i: usize = 0;
    while i < v.len()
        invariant
            i <= v@.len(),
            v@ == s@,
            total == utf8_len(v@.take(i as int)),
            total <= limit,
        decreases v.len() - i,
    {
        let c = v[i];
        let w: usize = if (c as u32) < 0x80 { 1 } else if (c as u32) < 0x800 { 2 } else if (c as u32) < 0x10000 { 3 } else { 4 };
        assert(v@.take(i + 1).drop_last() =~= v@.take(i as int));
        if w > limit - total {
            proof {
                lemma_utf8_len_prefix(v@, i + 1);
            }
            return true;
        }
        total = total + w;
        i = i + 1;
    }
    assert(v@.take(v.len() as int) =~= v@);
    false
}

/// A prefix never takes more bytes than the whole text.
pub proof fn lemma_utf8_len_prefix(s: Seq<char>, k: int)
    requires
        0 <= k <= s.len(),
    ensures
        utf8_len(s.take(k)) <= utf8_len(s),
    decreases s.len() - k,
{
    if k < s.len() {
        lemma_utf8_len_prefix(s, k + 1);
        assert(s.take(k + 1).drop_last() =~= s.take(k));
    } else {
        assert(s.take(k) =~= s);
    }
}

/// A photo upload that passed its checks.
#[derive(Debug)]
pub struct UploadPlan {
    pub entity_type: EntityType,
    pub entity_id: String,
    pub caption: Option<String>,
    /// The extension the file is stored under.
    pub ext: String,
    pub bytes: Vec<u8>,
}

pub open spec fn opt_bytes(o: Option<Vec<u8>>) -> Option<Seq<u8>> {
    match o {
        Some(b) => Some(b@),
        None => None,
    }
}

/// The caption is longer than allowed.
pub open spec fn caption_too_long(cap: Option<Seq<char>>) -> bool {
    cap matches Some(c) && utf8_len(c) > MAX_CAPTION
}

/// Why a form upload is refused, by the first check it fails: a missing
/// file, entity type or entity id, an over-long id or caption, an unknown
/// entity type, an extension that is not an image's, or content that is not
/// an image.
pub open spec fn upload_refusal(
    file: Option<Seq<u8>>,
    name: Option<Seq<char>>,
    et: Option<Seq<char>>,
    eid: Option<Seq<char>>,
    cap: Option<Seq<char>>,
) -> Option<Seq<char>> {
    if file is None {
        Some("缺少上传文件"@)
    } else if et is None {
        Some("缺少 entity_type"@)
    } else if eid is None {
        Some("缺少 entity_id"@)
    } else if utf8_len(eid->0) > MAX_ENTITY_ID {
        Some("entity_id 过长（上限 128）"@)
    } else if caption_too_long(cap) {
        Some("caption 过长（上限 1024）"@)
    } else if entity_type_parse(et->0) is None {
        Some("未知 entity_type: "@ + et->0)
    } else if !allowed_ext(upload_ext(name)) {
        Some("不支持的图片类型: ."@ + upload_ext(name))
    } else if image_kind(file->0) is None {
        Some("文件内容不是受支持的图片格式"@)
    } else {
        None
    }
}

/// `p` holds what an accepted upload carries.
pub open spec fn plan_of(
    p: UploadPlan,
    file: Seq<u8>,
    name: Option<Seq<char>>,
    et: Seq<char>,
    eid: Seq<char>,
    cap: Option<Seq<char>>,
) -> bool {
    &&& Some(p.entity_type) == entity_type_parse(et)
    &&& p.entity_id@ == eid
    &&& opt_view(p.caption) == cap
    &&& p.ext@ == upload_ext(name)
    &&& p.bytes@ == file
}

fn refuse(msg: &str) -> (e: AppError)
    ensures
        e matches AppError::InvalidInput(m) && m@ == msg@,
{
    AppError::InvalidInput(string_of(msg))
}

/// Checks a form upload (file, its original name, entity type, entity id,
/// caption) by the rules of `upload_refusal`.
pub fn check_upload(
    file: Option<Vec<u8>>,
    original_name: Option<String>,
    entity_type: Option<String>,
    entity_id: Option<String>,
    caption: Option<String>,
) -> (r: Result<UploadPlan, AppError>)
    ensures
        match r {
            Ok(p) => upload_refusal(opt_bytes(file), opt_view(original_name), opt_view(entity_type),
                opt_view(entity_id), opt_view(caption)) is None
                && plan_of(p, file->0@, opt_view(original_name), entity_type->0@, entity_id->0@, opt_view(caption)),
            Err(e) => e matches AppError::InvalidInput(m) && upload_refusal(opt_bytes(file),
                opt_view(original_name), opt_view(entity_type), opt_view(entity_id), opt_view(caption)) == Some(m@),
        },
{
    let bytes = match file {
        Some(b) => b,
        None => return Err(refuse("缺少上传文件")),
    };
    let et = match entity_type {
        Some(t) => t,
        None => return Err(refuse("缺少 entity_type")),
    };
    let eid = match entity_id {
        Some(i) => i,
        None => return Err(refuse("缺少 entity_id")),
    };
    if utf8_longer_than(eid.as_str(), MAX_ENTITY_ID) {
        return Err(refuse("entity_id 过长（上限 128）"));
    }
    let long_caption = match &caption {
        Some(c) => utf8_longer_than(c.as_str(), MAX_CAPTION),
        None => false,
    };
    if long_caption {
        return Err(refuse("caption 过长（上限 1024）"));
    }
    let kind = match EntityType::from_str(et.as_str()) {
        Some(k) => k,
        None => return Err(AppError::InvalidInput(concat_str("未知 entity_type: ", et.as_str()))),
    };
    let ext = upload_extension(&original_name);
    if !is_allowed_ext(ext.as_str()) {
        return Err(AppError::InvalidInput(concat_str("不支持的图片类型: .", ext.as_str())));
    }
    if detect_image_kind(bytes.as_slice()).is_none() {
        return Err(refuse("文件内容不是受支持的图片格式"));
    }
    Ok(UploadPlan { entity_type: kind, entity_id: eid, caption, ext, bytes })
}

// What the base64 decoder of the `base64` crate (standard alphabet, with
// padding) makes of a text: the bytes, or the text of its error.
pub uninterp spec fn base64_decoding(text: Seq<char>) -> Result<Seq<u8>, Seq<char>>;

/// Decodes a base64 text with the `base64` crate's standard engine
/// (`general_purpose::STANDARD.decode`); an error is returned as its text.
/// The result is named by `base64_decoding`.
#[verifier::external_body]
fn decode_base64(text: &str) -> (r: Result<Vec<u8>, String>)
    ensures
        match r {
            Ok(b) => base64_decoding(text@) == Ok::<Seq<u8>, Seq<char>>(b@),
            Err(m) => base64_decoding(text@) == Err::<Seq<u8>, Seq<char>>(m@),
        },
{
    match base64::engine::general_purpose::STANDARD.decode(text) {
        Ok(b) => Ok(b),
        Err(e) => Err(e.to_string()),
    }
}

pub open spec fn decoded_view(d: Result<Vec<u8>, String>) -> Result<Seq<u8>, Seq<char>> {
    match d {
        Ok(b) => Ok(b@),
        Err(m) => Err(m@),
    }
}

/// Why an upload of base64 text is refused, by the first check it fails: the
/// text does not decode, the content is not an image, the extension is not
/// an image's, the id or caption is too long, or the entity type is unknown.
pub open spec fn base64_refusal(
    decoded: Result<Seq<u8>, Seq<char>>,
    et: Seq<char>,
    eid: Seq<char>,
    cap: Option<Seq<char>>,
    file_name: Seq<char>,
) -> Option<Seq<char>> {
    match decoded {
        Err(e) => Some("base64 解码失败: "@ + e),
        Ok(b) => {
            if image_kind(b) is None {
                Some("文件内容不是受支持的图片格式"@)
            } else if !allowed_ext(upload_ext(Some(file_name))) {
                Some("不支持的图片类型: ."@ + upload_ext(Some(file_name)))
            } else if utf8_len(eid) > MAX_ENTITY_ID {
                Some("entity_id 过长（上限 128）"@)
            } else if caption_too_long(cap) {
                Some("caption 过长（上限 1024）"@)
            } else if entity_type_parse(et) is None {
                Some("未知 entity_type: "@ + et)
            } else {
                None
            }
        },
    }
}

/// Checks an upload whose file came as base64 text, given what decoding the
/// text gave, by the rules of `base64_refusal`.
pub fn check_decoded_upload(
    decoded: Result<Vec<u8>, String>,
    entity_type: String,
    entity_id: String,
    caption: Option<String>,
    file_name: String,
) -> (r: Result<UploadPlan, AppError>)
    ensures
        match r {
            Ok(p) => base64_refusal(decoded_view(decoded), entity_type@, entity_id@, opt_view(caption), file_name@) is None
                && plan_of(p, decoded->Ok_0@, Some(file_name@), entity_type@, entity_id@, opt_view(caption)),
            Err(e) => e matches AppError::InvalidInput(m) && base64_refusal(decoded_view(decoded), entity_type@,
                entity_id@, opt_view(caption), file_name@) == Some(m@),
        },
{
    let bytes = match decoded {
        Ok(b) => b,
        Err(m) => return Err(AppError::InvalidInput(concat_str("base64 解码失败: ", m.as_str()))),
    };
    if detect_image_kind(bytes.as_slice()).is_none() {
        return Err(refuse("文件内容不是受支持的图片格式"));
    }
    let name = Some(file_name);
    let ext = upload_extension(&name);
    if !is_allowed_ext(ext.as_str()) {
        return Err(AppError::InvalidInput(concat_str("不支持的图片类型: .", ext.as_str())));
    }
    if utf8_longer_than(entity_id.as_str(), MAX_ENTITY_ID) {
        return Err(refuse("entity_id 过长（上限 128）"));
    }
    let long_caption = match &caption {
        Some(c) => utf8_longer_than(c.as_str(), MAX_CAPTION),
        None => false,
    };
    if long_caption {
        return Err(refuse("caption 过长（上限 1024）"));
    }
    let kind = match EntityType::from_str(entity_type.as_str()) {
        Some(k) => k,
        None => return Err(AppError::InvalidInput(concat_str("未知 entity_type: ", entity_type.as_str()))),
    };
    Ok(UploadPlan { entity_type: kind, entity_id, caption, ext, bytes })
}

/// Decodes the base64 text of an upload and checks the upload (see
/// `check_decoded_upload`).
pub fn check_base64_upload(
    entity_type: String,
    entity_id: String,
    caption: Option<String>,
    file_name: String,
    file_data: &str,
) -> (r: Result<UploadPlan, AppError>)
    ensures
        match r {
            Ok(p) => base64_decoding(file_data@) is Ok
                && base64_refusal(base64_decoding(file_data@), entity_type@, entity_id@, opt_view(caption), file_name@) is None
                && plan_of(p, base64_decoding(file_data@)->Ok_0, Some(file_name@), entity_type@, entity_id@, opt_view(caption)),
            Err(e) => e matches AppError::InvalidInput(m) && base64_refusal(base64_decoding(file_data@), entity_type@,
                entity_id@, opt_view(caption), file_name@) == Some(m@),
        },
{
    let decoded = decode_base64(file_data);
    proof {
        assert(decoded_view(decoded) == base64_decoding(file_data@));
    }
    check_decoded_upload(decoded, entity_type, entity_id, caption, file_name)
}

/// Where an uploaded photo is stored, relative to the upload directory:
/// `images/<id>.<ext>`.
pub fn image_path(id: &str, ext: &str) -> (r: String)
    ensures
        r@ == "images/"@ + id@ + "."@ + ext@,
{
    let mut v = chars_of("images/");
    let mut a = chars_of(id);
    v.append(&mut a);
    let mut d = chars_of(".");
    v.append(&mut d);
    let mut e = chars_of(ext);
    v.append(&mut e);
    string_from_chars(&v)
}

/// The photo record of an accepted upload stored at `file_path`: not a cover.
pub fn upload_record(plan: UploadPlan, file_path: String) -> (r: NewImage)
    ensures
        r == (NewImage { entity_type: plan.entity_type, entity_id: plan.entity_id, file_path,
            caption: plan.caption, is_cover: false }),
{
    NewImage { entity_type: plan.entity_type, entity_id: plan.entity_id, file_path, caption: plan.caption, is_cover: false }
}

impl ClanTrailDb {
    /// Whether the entity a photo is for exists; `NotFound` as its lookup
    /// reports otherwise.
    pub fn check_photo_subject(&self, entity_type: EntityType, entity_id: &str) -> (r: Result<(), AppError>)
        ensures
            match entity_type {
                EntityType::Grave => if has_key(self@.graves, entity_id@) { r is Ok }
                    else { r matches Err(AppError::NotFound(m)) && m@ == "grave "@ + entity_id@ },
                EntityType::Member => if has_key(self@.members, entity_id@) { r is Ok }
                    else { r matches Err(AppError::NotFound(m)) && m@ == "member "@ + entity_id@ },
                EntityType::Clan => if has_key(self@.clans, entity_id@) { r is Ok }
                    else { r matches Err(AppError::NotFound(m)) && m@ == "clan "@ + entity_id@ },
            },
    {
        match entity_type {
            EntityType::Grave => match self.get_grave(entity_id) {
                Ok(_) => Ok(()),
                Err(e) => Err(e),
            },
            EntityType::Member => match self.get_member(entity_id) {
                Ok(_) => Ok(()),
                Err(e) => Err(e),
            },
            EntityType::Clan => match self.get_clan(entity_id) {
                Ok(_) => Ok(()),
                Err(e) => Err(e),
            },
        }
    }
}

} // verus!
