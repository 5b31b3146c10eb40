//! Finding the cover image of an EPUB: the images a page refers to, the resources
//! that may be the cover in the order they are tried, and the largest image.
use vstd::prelude::*;
use crate::epub::{after_last_slash, comparable_path, extract_filename, normalize_path};
use crate::inbox::{merge_new, merged_new, texts};
use crate::pattern::{all_groups, compile, regex_all_groups, regex_compiles};
use crate::text::{chars_of, contains, contains_chars, ends_with, ends_with_chars, lowercase, str_eq, to_lowercase};

verus! {

/// A resource of an EPUB: its id, path, MIME type and properties.
pub struct ResourceInfo {
    pub id: String,
    pub path: String,
    pub mime: String,
    pub properties: Option<String>,
}

// ---------------------------------------------------------------------------
// Image references in a page
// ---------------------------------------------------------------------------

/// `<img src="...">`.
pub open spec fn img_src_pattern() -> Seq<char> {
    r#"(?i)<img[^>]+src\s*=\s*["']([^"']+)["']"#@
}

/// `<img src=...>` without quotes.
pub open spec fn img_src_bare_pattern() -> Seq<char> {
    r#"(?i)<img[^>]+src\s*=\s*([^\s>"']+)"#@
}

/// `xlink:href="..."` of SVG images.
pub open spec fn xlink_pattern() -> Seq<char> {
    r#"(?i)xlink:href\s*=\s*["']([^"']+)["']"#@
}

/// `href="..."` of SVG `image` elements.
pub open spec fn image_href_pattern() -> Seq<char> {
    r#"(?i)<image[^>]+href\s*=\s*["']([^"']+)["']"#@
}

/// `background-image: url(...)`.
pub open spec fn background_pattern() -> Seq<char> {
    r#"(?i)background-image\s*:\s*url\s*\(\s*["']?([^"')]+)["']?\s*\)"#@
}

/// Whether the image reference patterns compile.
pub open spec fn image_patterns_compile() -> bool {
    &&& regex_compiles(img_src_pattern())
    &&& regex_compiles(img_src_bare_pattern())
    &&& regex_compiles(xlink_pattern())
    &&& regex_compiles(image_href_pattern())
    &&& regex_compiles(background_pattern())
}

/// The images a page refers to: every quoted `img` source, then the unquoted `img`
/// sources, SVG links, SVG `image` references and background images that are not
/// listed yet.
pub open spec fn image_sources(html: Seq<char>) -> Seq<Seq<char>> {
    let s = regex_all_groups(img_src_pattern(), html);
    let s = merged_new(s, regex_all_groups(img_src_bare_pattern(), html));
    let s = merged_new(s, regex_all_groups(xlink_pattern(), html));
    let s = merged_new(s, regex_all_groups(image_href_pattern(), html));
    merged_new(s, regex_all_groups(background_pattern(), html))
}

/// The images a page refers to.
pub fn extract_image_sources_from_html(html: &str) -> (res: Vec<String>)
    requires
        image_patterns_compile(),
    ensures
        texts(res@) == image_sources(html@),
{
    let p1 = compile(r#"(?i)<img[^>]+src\s*=\s*["']([^"']+)["']"#).unwrap();
    let mut sources = all_groups(&p1, html);
    let p2 = compile(r#"(?i)<img[^>]+src\s*=\s*([^\s>"']+)"#).unwrap();
    merge_new(&mut sources, all_groups(&p2, html).as_slice());
    let p3 = compile(r#"(?i)xlink:href\s*=\s*["']([^"']+)["']"#).unwrap();
    merge_new(&mut sources, all_groups(&p3, html).as_slice());
    let p4 = compile(r#"(?i)<image[^>]+href\s*=\s*["']([^"']+)["']"#).unwrap();
    merge_new(&mut sources, all_groups(&p4, html).as_slice());
    let p5 = compile(r#"(?i)background-image\s*:\s*url\s*\(\s*["']?([^"')]+)["']?\s*\)"#).unwrap();
    merge_new(&mut sources, all_groups(&p5, html).as_slice());
    sources
}

/// Whether the image reference patterns compile.
pub fn image_patterns_available() -> (res: bool)
    ensures
        res == image_patterns_compile(),
{
    compile(r#"(?i)<img[^>]+src\s*=\s*["']([^"']+)["']"#).is_some() && compile(
        r#"(?i)<img[^>]+src\s*=\s*([^\s>"']+)"#,
    ).is_some() && compile(r#"(?i)xlink:href\s*=\s*["']([^"']+)["']"#).is_some() && compile(
        r#"(?i)<image[^>]+href\s*=\s*["']([^"']+)["']"#,
    ).is_some() && compile(
        r#"(?i)background-image\s*:\s*url\s*\(\s*["']?([^"')]+)["']?\s*\)"#,
    ).is_some()
}

// ---------------------------------------------------------------------------
// Which resources may be the cover
// ---------------------------------------------------------------------------

/// Whether a MIME type is an image's.
pub open spec fn is_image(mime: Seq<char>) -> bool {
    contains(mime, "image"@)
}

/// A resource named as a cover with an image type.
pub open spec fn named_cover(r: ResourceInfo) -> bool {
    let id = lowercase(r.id@);
    (contains(id, "cover"@) || contains(id, "frontcover"@)) && (contains(r.mime@, "image"@)
        || contains(r.mime@, "jpeg"@) || contains(r.mime@, "png"@))
}

/// A resource that EPUB 3 marks as the cover image.
pub open spec fn marked_cover(r: ResourceInfo) -> bool {
    match r.properties {
        Some(p) => contains(p@, "cover-image"@),
        None => false,
    }
}

/// An image resource that an image reference `src` of the first page points to.
pub open spec fn referenced_by(r: ResourceInfo, src: Seq<char>) -> bool {
    let rp = lowercase(r.path@);
    let rn = comparable_path(rp);
    let sn = comparable_path(src);
    &&& is_image(r.mime@)
    &&& {
        ||| rn == sn
        ||| ends_with(rn, sn)
        ||| ends_with(sn, after_last_slash(rn))
        ||| after_last_slash(rn) == after_last_slash(sn)
        ||| contains(rp, lowercase(src))
        ||| contains(lowercase(src), after_last_slash(rp))
    }
}

/// An image resource whose path names a cover, title or front page.
pub open spec fn cover_like_path(r: ResourceInfo) -> bool {
    let p = lowercase(r.path@);
    is_image(r.mime@) && (contains(p, "cover"@) || contains(p, "title"@) || contains(p, "front"@))
}

/// An image resource that the only image of the first page names.
pub open spec fn single_image(r: ResourceInfo, src: Seq<char>) -> bool {
    let rn = comparable_path(lowercase(r.path@));
    let sn = comparable_path(src);
    is_image(r.mime@) && (ends_with(rn, after_last_slash(sn)) || after_last_slash(rn)
        == after_last_slash(sn))
}

/// The ids of the resources that satisfy `pred`, in order.
pub open spec fn ids_where(rs: Seq<ResourceInfo>, pred: spec_fn(ResourceInfo) -> bool) -> Seq<Seq<char>>
    decreases rs.len(),
{
    if rs.len() == 0 {
        Seq::<Seq<char>>::empty()
    } else if pred(rs.last()) {
        ids_where(rs.drop_last(), pred).push(rs.last().id@)
    } else {
        ids_where(rs.drop_last(), pred)
    }
}

/// The resources referenced by each of the image sources, source by source.
pub open spec fn referenced_ids(rs: Seq<ResourceInfo>, srcs: Seq<Seq<char>>) -> Seq<Seq<char>>
    decreases srcs.len(),
{
    if srcs.len() == 0 {
        Seq::<Seq<char>>::empty()
    } else {
        referenced_ids(rs, srcs.drop_last()) + ids_where(rs, |r: ResourceInfo| referenced_by(r, srcs.last()))
    }
}

/// The resources that may be the cover, in the order they are tried: those named as
/// a cover, those marked as the cover, those the first page's images refer to, those
/// whose path looks like a cover, and those matching the first page's only image.
pub open spec fn cover_candidates(rs: Seq<ResourceInfo>, first_page: Option<Seq<char>>) -> Seq<Seq<char>> {
    let srcs = match first_page {
        Some(h) => image_sources(h),
        None => Seq::<Seq<char>>::empty(),
    };
    ids_where(rs, |r: ResourceInfo| named_cover(r)) + ids_where(rs, |r: ResourceInfo| marked_cover(r))
        + referenced_ids(rs, srcs) + ids_where(rs, |r: ResourceInfo| cover_like_path(r)) + if srcs.len()
        == 1 {
        ids_where(rs, |r: ResourceInfo| single_image(r, srcs[0]))
    } else {
        Seq::<Seq<char>>::empty()
    }
}

fn holds_text(s: &str, p: &str) -> (res: bool)
    ensures
        res == contains(s@, p@),
{
    contains_chars(chars_of(s).as_slice(), chars_of(p).as_slice())
}

fn check_named_cover(r: &ResourceInfo) -> (res: bool)
    ensures
        res == named_cover(*r),
{
    let id = to_lowercase(r.id.as_str());
    (holds_text(id.as_str(), "cover") || holds_text(id.as_str(), "frontcover")) && (holds_text(r.mime.as_str(), "image")
        || holds_text(r.mime.as_str(), "jpeg") || holds_text(r.mime.as_str(), "png"))
}

fn check_marked_cover(r: &ResourceInfo) -> (res: bool)
    ensures
        res == marked_cover(*r),
{
    match &r.properties {
        Some(p) => holds_text(p.as_str(), "cover-image"),
        None => false,
    }
}

fn check_referenced_by(r: &ResourceInfo, src: &str) -> (res: bool)
    ensures
        res == referenced_by(*r, src@),
{
    if !holds_text(r.mime.as_str(), "image") {
        return false;
    }
    let rp = to_lowercase(r.path.as_str());
    let rn = normalize_path(rp.as_str());
    let sn = normalize_path(src);
    let rnc = chars_of(rn.as_str());
    let snc = chars_of(sn.as_str());
    let rf = extract_filename(rn.as_str());
    let sf = extract_filename(sn.as_str());
    let rpf = extract_filename(rp.as_str());
    let sl = to_lowercase(src);
    str_eq(rn.as_str(), sn.as_str()) || ends_with_chars(rnc.as_slice(), snc.as_slice())
        || ends_with_chars(snc.as_slice(), chars_of(rf.as_str()).as_slice()) || str_eq(
        rf.as_str(),
        sf.as_str(),
    ) || holds_text(rp.as_str(), sl.as_str()) || holds_text(sl.as_str(), rpf.as_str())
}

fn check_cover_like_path(r: &ResourceInfo) -> (res: bool)
    ensures
        res == cover_like_path(*r),
{
    let p = to_lowercase(r.path.as_str());
    holds_text(r.mime.as_str(), "image") && (holds_text(p.as_str(), "cover") || holds_text(p.as_str(), "title") || holds_text(
        p.as_str(),
        "front",
    ))
}

fn check_single_image(r: &ResourceInfo, src: &str) -> (res: bool)
    ensures
        res == single_image(*r, src@),
{
    let rp = to_lowercase(r.path.as_str());
    let rn = normalize_path(rp.as_str());
    let sn = normalize_path(src);
    let rf = extract_filename(rn.as_str());
    let sf = extract_filename(sn.as_str());
    holds_text(r.mime.as_str(), "image") && (ends_with_chars(
        chars_of(rn.as_str()).as_slice(),
        chars_of(sf.as_str()).as_slice(),
    ) || str_eq(rf.as_str(), sf.as_str()))
}

/// Which test a pass over the resources applies.
enum CoverTest<'a> {
    Named,
    Marked,
    Referenced(&'a str),
    CoverPath,
    Single(&'a str),
    Image,
}

spec fn test_holds(t: CoverTest, r: ResourceInfo) -> bool {
    match t {
        CoverTest::Named => named_cover(r),
        CoverTest::Marked => marked_cover(r),
        CoverTest::Referenced(s) => referenced_by(r, s@),
        CoverTest::CoverPath => cover_like_path(r),
        CoverTest::Single(s) => single_image(r, s@),
        CoverTest::Image => is_image(r.mime@),
    }
}

fn run_test(t: &CoverTest, r: &ResourceInfo) -> (res: bool)
    ensures
        res == test_holds(*t, *r),
{
    match t {
        CoverTest::Named => check_named_cover(r),
        CoverTest::Marked => check_marked_cover(r),
        CoverTest::Referenced(s) => check_referenced_by(r, s),
        CoverTest::CoverPath => check_cover_like_path(r),
        CoverTest::Single(s) => check_single_image(r, s),
        CoverTest::Image => holds_text(r.mime.as_str(), "image"),
    }
}

fn push_ids_where(out: &mut Vec<String>, rs: &[ResourceInfo], t: &CoverTest)
    ensures
        texts(final(out)@) == texts(old(out)@) + ids_where(rs@, |r: ResourceInfo| test_holds(*t, r)),
{
    let ghost start = texts(out@);
    let ghost pred = |r: ResourceInfo| test_holds(*t, r);
    let mut i: usize = 0;
    while i < rs.len()
        invariant
            i <= rs@.len(),
            pred == (|r: ResourceInfo| test_holds(*t, r)),
            texts(out@) == start + ids_where(rs@.take(i as int), pred),
        decreases rs.len() - i,
    {
        proof {
            assert(rs@.take(i + 1).drop_last() == rs@.take(i as int));
            assert(rs@.take(i + 1).last() == rs@[i as int]);
        }
        if run_test(t, &rs[i]) {
            let ghost before = out@;
            out.push(String::from_str(rs[i].id.as_str()));
            proof {
                assert(texts(out@) =~= texts(before).push(rs@[i as int].id@));
            }
        }
        i = i + 1;
    }
    proof {
        assert(rs@.take(i as int) == rs@);
    }
}

/// The resources that may be the cover, in the order they are tried, given the
/// resources and the first page's HTML where it could be read.
pub fn find_cover_candidates(resources: &[ResourceInfo], first_page: Option<&str>) -> (res: Vec<String>)
    requires
        image_patterns_compile(),
    ensures
        texts(res@) == cover_candidates(
            resources@,
            match first_page {
                Some(h) => Some(h@),
                None => None,
            },
        ),
{
    let mut out: Vec<String> = Vec::new();
    proof {
        assert(texts(out@) =~= Seq::<Seq<char>>::empty());
    }
    let t1 = CoverTest::Named;
    push_ids_where(&mut out, resources, &t1);
    let t2 = CoverTest::Marked;
    push_ids_where(&mut out, resources, &t2);
    proof {
        assert((|r: ResourceInfo| test_holds(t1, r)) =~= (|r: ResourceInfo| named_cover(r)));
        assert((|r: ResourceInfo| test_holds(t2, r)) =~= (|r: ResourceInfo| marked_cover(r)));
    }
    let ghost after_two = texts(out@);
    let srcs: Vec<String> = match first_page {
        Some(h) => extract_image_sources_from_html(h),
        None => Vec::new(),
    };
    let ghost sv = texts(srcs@);
    let ghost before = texts(out@);
    let mut k: usize = 0;
    while k < srcs.len()
        invariant
            k <= srcs@.len(),
            sv == texts(srcs@),
            texts(out@) == before + referenced_ids(resources@, sv.take(k as int)),
        decreases srcs.len() - k,
    {
        proof {
            assert(sv.take(k + 1).drop_last() == sv.take(k as int));
            assert(sv.take(k + 1).last() == srcs@[k as int]@);
        }
        let t = CoverTest::Referenced(srcs[k].as_str());
        push_ids_where(&mut out, resources, &t);
        proof {
            assert((|r: ResourceInfo| test_holds(t, r)) =~= (|r: ResourceInfo| referenced_by(r, sv.take(k + 1).last())));
            assert(texts(out@) =~= before + referenced_ids(resources@, sv.take(k + 1)));
        }
        k = k + 1;
    }
    proof {
        assert(sv.take(k as int) == sv);
    }
    let ghost after_refs = texts(out@);
    let t4 = CoverTest::CoverPath;
    push_ids_where(&mut out, resources, &t4);
    proof {
        assert((|r: ResourceInfo| test_holds(t4, r)) =~= (|r: ResourceInfo| cover_like_path(r)));
    }
    let ghost after_four = texts(out@);
    if srcs.len() == 1 {
        let t5 = CoverTest::Single(srcs[0].as_str());
        push_ids_where(&mut out, resources, &t5);
        proof {
            assert((|r: ResourceInfo| test_holds(t5, r)) =~= (|r: ResourceInfo| single_image(r, sv[0])));
        }
    }
    proof {
        let srcs_spec = match first_page {
            Some(h) => image_sources(h@),
            None => Seq::<Seq<char>>::empty(),
        };
        assert(sv == srcs_spec);
        let fp = match first_page {
            Some(h) => Some(h@),
            None => None,
        };
        if srcs@.len() == 1 {
            assert(texts(out@) =~= cover_candidates(resources@, fp));
        } else {
            assert(texts(out@) =~= cover_candidates(resources@, fp));
        }
    }
    out
}

// ---------------------------------------------------------------------------
// The largest image
// ---------------------------------------------------------------------------

/// The ids of the image resources, in order: those whose size decides the cover last.
pub fn image_resource_ids(resources: &[ResourceInfo]) -> (res: Vec<String>)
    ensures
        texts(res@) == ids_where(resources@, |r: ResourceInfo| is_image(r.mime@)),
{
    let mut out: Vec<String> = Vec::new();
    proof {
        assert(texts(out@) =~= Seq::<Seq<char>>::empty());
    }
    let t = CoverTest::Image;
    push_ids_where(&mut out, resources, &t);
    proof {
        assert((|r: ResourceInfo| test_holds(t, r)) =~= (|r: ResourceInfo| is_image(r.mime@)));
        assert(texts(out@) =~= ids_where(resources@, |r: ResourceInfo| is_image(r.mime@)));
    }
    out
}

/// Images of at most this many bytes are not taken for the cover by size.
pub const MIN_COVER_BYTES: usize = 10240;

/// The first image (id and size) larger than `MIN_COVER_BYTES` that no later image
/// outsizes, among those read so far.
pub open spec fn largest_image_of(images: Seq<(String, usize)>) -> Option<(Seq<char>, nat)>
    decreases images.len(),
{
    if images.len() == 0 {
        None
    } else {
        let best = largest_image_of(images.drop_last());
        let (id, size) = images.last();
        if size > MIN_COVER_BYTES && (best is None || size > best.unwrap().1) {
            Some((id@, size as nat))
        } else {
            best
        }
    }
}

/// The id of the largest image over `MIN_COVER_BYTES` bytes (the first of equal
/// sizes), given the images' ids and sizes.
pub fn largest_image(images: &[(String, usize)]) -> (res: Option<String>)
    ensures
        match largest_image_of(images@) {
            Some(b) => res matches Some(id) && id@ == b.0,
            None => res is None,
        },
{
    let mut best: Option<(usize, usize)> = None;
    let mut i: usize = 0;
    while i < images.len()
        invariant
            i <= images@.len(),
            match largest_image_of(images@.take(i as int)) {
                Some(b) => best matches Some(p) && p.0 < i && images@[p.0 as int].0@ == b.0 && p.1
                    == b.1,
                None => best is None,
            },
        decreases images.len() - i,
    {
        proof {
            assert(images@.take(i + 1).drop_last() == images@.take(i as int));
            assert(images@.take(i + 1).last() == images@[i as int]);
        }
        let size = images[i].1;
        let better = match best {
            Some(p) => size > p.1,
            None => true,
        };
        if size > MIN_COVER_BYTES && better {
            best = Some((i, size));
        }
        i = i + 1;
    }
    proof {
        assert(images@.take(i as int) == images@);
    }
    match best {
        Some(p) => Some(String::from_str(images[p.0].0.as_str())),
        None => None,
    }
}

} // verus!
