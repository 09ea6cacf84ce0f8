//! Restoring the header/footer drawings of a filled template.
//!
//! Writing a workbook drops the `legacyDrawingHF` element of the first sheet and the VML
//! drawings it points to. The patch copies the VML parts, their relationships and their media
//! from the template package into the written package, gives the drawing relationships fresh
//! ids, and wires them into the sheet, its relationships and the content types.

use vstd::prelude::*;
use vstd::utf8::{decode_utf8, encode_utf8, valid_utf8};
use crate::commands::{all_digits, decimal_value, digit_value, is_digit, parse_u32, parse_u32_chars, without_plus};
use crate::template::{decimal_string, decimal_text, digit_char};
use crate::text::{strs, ends_with_str, chars_of, concat, contains_seq, contains_str, replace_all, replace_str, str_eq, str_less, str_lt, strictly_sorted_strs, lemma_str_lt_total, lemma_str_lt_transitive, lemma_str_lt_irreflexive};
use crate::xml_text::{extract_legacy_drawing_hf, legacy_hf_spec, parent_dir, parent_dir_spec, parse_rels_spec, parse_zip_rels, rel_view, rels_path_spec, rels_view, resolve_rel_spec, resolve_zip_rel, make_rels_path, slice_chars, ZipRel};

verus! {

/// The bytes of the entry `name` of the zip archive `archive`, as the `zip` crate reads them
/// (`ZipArchive::new`, `by_name`, `read_to_end`), when the archive and the entry can be read.
pub uninterp spec fn zip_entry(archive: Seq<u8>, name: Seq<char>) -> Option<Seq<u8>>;

/// Whether the zip archive `archive` opens (`ZipArchive::new`) and has no entry `name`
/// (`by_name` reports `ZipError::FileNotFound`).
pub uninterp spec fn zip_lacks_entry(archive: Seq<u8>, name: Seq<char>) -> bool;

/// The number of entries of the zip archive `archive` (`ZipArchive::new`, `len`), when it
/// can be opened.
pub uninterp spec fn zip_entry_count(archive: Seq<u8>) -> Option<nat>;

/// Whether entry `index` of the zip archive `archive` is a directory (`ZipArchive::new`,
/// `by_index`, `is_dir`), when the entry can be opened.
pub uninterp spec fn zip_dir_flag(archive: Seq<u8>, index: nat) -> Option<bool>;

/// The name and bytes of entry `index` of the zip archive `archive` (`ZipArchive::new`,
/// `by_index`, `name`, `read_to_end`), when they can be read.
pub uninterp spec fn zip_file_data(archive: Seq<u8>, index: nat) -> Option<(Seq<char>, Seq<u8>)>;

/// The text `String::from_utf8_lossy` makes of `bytes`.
pub uninterp spec fn lossy_text(bytes: Seq<u8>) -> Seq<char>;

/// Why an entry could not be read: the archive, a missing entry, or its data.
pub enum ZipFailure {
    Archive(String),
    Missing,
    Broken,
    Read(String),
}

/// An entry of a zip archive: name, whether it is a directory, bytes.
pub struct ZipItem {
    pub name: String,
    pub is_dir: bool,
    pub bytes: Vec<u8>,
}

/// The view of archive entries: name, directory flag, bytes.
pub open spec fn items_view(v: Seq<ZipItem>) -> Seq<(Seq<char>, bool, Seq<u8>)> {
    v.map_values(|x: ZipItem| (x.name@, x.is_dir, x.bytes@))
}

/// The entry `name` of a zip archive in memory (`zip::ZipArchive::new`, `by_name`,
/// `read_to_end`): its bytes exactly when [`zip_entry`] has them; `Missing` exactly when the
/// archive opens and `by_name` reports `ZipError::FileNotFound` ([`zip_lacks_entry`]).
#[verifier::external_body]
fn read_zip_entry(archive: &[u8], name: &str) -> (r: Result<Vec<u8>, ZipFailure>)
    ensures
        match zip_entry(archive@, name@) {
            Some(b) => r matches Ok(v) && v@ == b,
            None => r is Err,
        },
        (r matches Err(ZipFailure::Missing)) == zip_lacks_entry(archive@, name@),
{
    let mut zip = zip::ZipArchive::new(std::io::Cursor::new(archive))
        .map_err(|e| ZipFailure::Archive(e.to_string()))?;
    let mut file = zip.by_name(name).map_err(|e| match e {
        zip::result::ZipError::FileNotFound => ZipFailure::Missing,
        _ => ZipFailure::Broken,
    })?;
    let mut out = Vec::new();
    std::io::Read::read_to_end(&mut file, &mut out).map_err(|e| ZipFailure::Read(e.to_string()))?;
    Ok(out)
}

/// The number of entries of a zip archive in memory (`zip::ZipArchive::new`, `len`): the
/// count exactly when [`zip_entry_count`] has it; the error is the text of the `zip` error.
#[verifier::external_body]
fn count_zip_entries(archive: &[u8]) -> (r: Result<usize, String>)
    ensures
        match zip_entry_count(archive@) {
            Some(n) => r matches Ok(c) && c == n,
            None => r is Err,
        },
{
    let zip = zip::ZipArchive::new(std::io::Cursor::new(archive)).map_err(|e| e.to_string())?;
    Ok(zip.len())
}

/// Whether entry `index` of a zip archive in memory is a directory (`zip::ZipArchive::new`,
/// `by_index`, `is_dir`): the flag exactly when [`zip_dir_flag`] has it; the error is the
/// text of the `zip` error.
#[verifier::external_body]
fn zip_entry_is_dir(archive: &[u8], index: usize) -> (r: Result<bool, String>)
    ensures
        match zip_dir_flag(archive@, index as nat) {
            Some(d) => r matches Ok(x) && x == d,
            None => r is Err,
        },
{
    let mut zip = zip::ZipArchive::new(std::io::Cursor::new(archive)).map_err(|e| e.to_string())?;
    let file = zip.by_index(index).map_err(|e| e.to_string())?;
    Ok(file.is_dir())
}

/// The name and bytes of entry `index` of a zip archive in memory (`zip::ZipArchive::new`,
/// `by_index`, `name`, `read_to_end`): exactly when [`zip_file_data`] has them; the error is
/// the text of the `zip` or I/O error.
#[verifier::external_body]
fn zip_entry_data(archive: &[u8], index: usize) -> (r: Result<(String, Vec<u8>), String>)
    ensures
        match zip_file_data(archive@, index as nat) {
            Some(f) => r matches Ok(x) && x.0@ == f.0 && x.1@ == f.1,
            None => r is Err,
        },
{
    let mut zip = zip::ZipArchive::new(std::io::Cursor::new(archive)).map_err(|e| e.to_string())?;
    let mut file = zip.by_index(index).map_err(|e| e.to_string())?;
    let name = file.name().map_err(|e| e.to_string())?.to_string();
    let mut bytes = Vec::new();
    std::io::Read::read_to_end(&mut file, &mut bytes).map_err(|e| e.to_string())?;
    Ok((name, bytes))
}

/// The first `n` entries of an archive in order: a directory with only its flag, a file with
/// its name and bytes; `None` when one of them cannot be read.
pub open spec fn listing_upto(archive: Seq<u8>, n: nat) -> Option<Seq<(Seq<char>, bool, Seq<u8>)>>
    decreases n,
{
    if n == 0 {
        Some(Seq::empty())
    } else {
        let i = (n - 1) as nat;
        match listing_upto(archive, i) {
            None => None,
            Some(prev) => match zip_dir_flag(archive, i) {
                None => None,
                Some(true) => Some(prev.push((Seq::empty(), true, Seq::empty()))),
                Some(false) => match zip_file_data(archive, i) {
                    None => None,
                    Some(f) => Some(prev.push((f.0, false, f.1))),
                },
            },
        }
    }
}

/// The entries of an archive in order, when the archive and all its entries can be read.
pub open spec fn archive_listing(archive: Seq<u8>) -> Option<Seq<(Seq<char>, bool, Seq<u8>)>> {
    match zip_entry_count(archive) {
        None => None,
        Some(n) => listing_upto(archive, n),
    }
}

/// Once an entry cannot be read, no longer prefix of the listing can be.
proof fn lemma_listing_upto_fails(archive: Seq<u8>, m: nat, n: nat)
    requires
        m <= n,
        listing_upto(archive, m) is None,
    ensures
        listing_upto(archive, n) is None,
    decreases n - m,
{
    if m < n {
        lemma_listing_upto_fails(archive, m + 1, n);
    }
}

/// Every entry of a zip archive in memory, in archive order: directories with their flag
/// only, files with their name and bytes; the error is the text of the first `zip` or I/O
/// error met.
fn list_zip_entries(archive: &[u8]) -> (r: Result<Vec<ZipItem>, String>)
    ensures
        match archive_listing(archive@) {
            Some(l) => r matches Ok(v) && items_view(v@) == l,
            None => r is Err,
        },
{
    let n = match count_zip_entries(archive) {
        Ok(n) => n,
        Err(e) => return Err(e),
    };
    let mut items: Vec<ZipItem> = Vec::new();
    let mut i: usize = 0;
    assert(items_view(items@) =~= Seq::<(Seq<char>, bool, Seq<u8>)>::empty());
    while i < n
        invariant
            i <= n,
            zip_entry_count(archive@) == Some(n as nat),
            listing_upto(archive@, i as nat) == Some(items_view(items@)),
        decreases n - i,
    {
        let ghost before = items_view(items@);
        let is_dir = match zip_entry_is_dir(archive, i) {
            Ok(d) => d,
            Err(e) => {
                proof {
                    lemma_listing_upto_fails(archive@, (i + 1) as nat, n as nat);
                }
                return Err(e);
            },
        };
        if is_dir {
            items.push(ZipItem { name: String::new(), is_dir: true, bytes: Vec::new() });
        } else {
            let (name, bytes) = match zip_entry_data(archive, i) {
                Ok(x) => x,
                Err(e) => {
                    proof {
                        lemma_listing_upto_fails(archive@, (i + 1) as nat, n as nat);
                    }
                    return Err(e);
                },
            };
            items.push(ZipItem { name, is_dir: false, bytes });
        }
        assert(items_view(items@) =~= before.push(items_view(items@).last()));
        i += 1;
    }
    Ok(items)
}

/// `String::from_utf8`: the text of `bytes` exactly when they are valid UTF-8; the error is
/// the text of `FromUtf8Error`.
#[verifier::external_body]
fn utf8_text(bytes: Vec<u8>) -> (r: Result<String, String>)
    ensures
        r is Ok <==> valid_utf8(bytes@),
        r matches Ok(s) ==> s@ == decode_utf8(bytes@),
{
    String::from_utf8(bytes).map_err(|e| e.to_string())
}

/// `String::from_utf8_lossy`: the text of `bytes`, with replacement characters for invalid
/// sequences; for valid UTF-8 exactly its text.
#[verifier::external_body]
fn utf8_lossy(bytes: &[u8]) -> (s: String)
    ensures
        s@ == lossy_text(bytes@),
        valid_utf8(bytes@) ==> s@ == decode_utf8(bytes@),
{
    String::from_utf8_lossy(bytes).into_owned()
}

/// A zip archive being written into a buffer in memory: a `zip::ZipWriter` over a
/// `std::io::Cursor<Vec<u8>>`, held opaque.
#[verifier::external_body]
pub struct ZipBuilder {
    writer: zip::ZipWriter<std::io::Cursor<Vec<u8>>>,
}

/// The entries written so far into an archive under construction: name and data, in the
/// order they were started.
pub uninterp spec fn zip_builder_entries(b: ZipBuilder) -> Seq<(Seq<char>, Seq<u8>)>;

/// Whether `name` is taken for a directory when read back (its last character is `/` or
/// `\`, as `zip`'s `is_dir` checks).
pub open spec fn is_dir_name(name: Seq<char>) -> bool {
    name.len() > 0 && (name.last() == '/' || name.last() == '\\')
}

/// Whether no entry has a directory name.
pub open spec fn no_dir_names(es: Seq<(Seq<char>, Seq<u8>)>) -> bool {
    forall|i: int| 0 <= i < es.len() ==> !is_dir_name(#[trigger] es[i].0)
}

/// The listing an archive of the files `es` reads back as.
pub open spec fn written_listing(es: Seq<(Seq<char>, Seq<u8>)>) -> Seq<(Seq<char>, bool, Seq<u8>)> {
    es.map_values(|e: (Seq<char>, Seq<u8>)| (e.0, false, e.1))
}

/// An empty archive (`zip::ZipWriter::new` on `std::io::Cursor::new(Vec::new())`).
#[verifier::external_body]
fn new_zip_builder() -> (b: ZipBuilder)
    ensures
        zip_builder_entries(b) == Seq::<(Seq<char>, Seq<u8>)>::empty(),
{
    ZipBuilder { writer: zip::ZipWriter::new(std::io::Cursor::new(Vec::new())) }
}

/// Starts the entry `name` (`ZipWriter::start_file` with `SimpleFileOptions::default()`):
/// on success the archive has one more entry, empty so far. The error is the text of the
/// `zip` error.
#[verifier::external_body]
fn start_zip_entry(b: &mut ZipBuilder, name: &str) -> (r: Result<(), String>)
    ensures
        r is Ok ==> zip_builder_entries(*final(b)) == zip_builder_entries(*old(b)).push((name@, Seq::empty())),
{
    b.writer.start_file(name, zip::write::SimpleFileOptions::default()).map_err(|e| e.to_string())
}

/// Writes `bytes` into the current entry (`std::io::Write::write_all`): on success they
/// follow the data of the last entry started. The error is the text of the I/O error.
#[verifier::external_body]
fn write_zip_bytes(b: &mut ZipBuilder, bytes: &[u8]) -> (r: Result<(), String>)
    ensures
        r is Ok && zip_builder_entries(*old(b)).len() > 0 ==> {
            let es = zip_builder_entries(*old(b));
            let last = es.last();
            zip_builder_entries(*final(b)) == es.update(es.len() - 1, (last.0, last.1 + bytes@))
        },
{
    std::io::Write::write_all(&mut b.writer, bytes).map_err(|e| e.to_string())
}

/// Finishes the archive and hands back its bytes (`ZipWriter::finish`,
/// `Cursor::into_inner`); the error is the text of the `zip` error. Read back with
/// `zip::ZipArchive`, the archive lists the entries written, in order, with their names and
/// data, where no name is a directory name. The bytes also hold the time of writing, so
/// nothing more is claimed of them.
#[verifier::external_body]
fn finish_zip(b: ZipBuilder) -> (r: Result<Vec<u8>, String>)
    ensures
        r matches Ok(bytes) ==> (no_dir_names(zip_builder_entries(b)) ==> archive_listing(bytes@)
            == Some(written_listing(zip_builder_entries(b)))),
{
    match b.writer.finish() {
        Ok(c) => Ok(c.into_inner()),
        Err(e) => Err(e.to_string()),
    }
}

/// A zip archive in memory holding `entries` in the given order: read back, it lists them
/// with their names and data, where no name is a directory name. The error is the first
/// `zip` or I/O error met.
fn write_zip(entries: &Vec<(String, Vec<u8>)>) -> (r: Result<Vec<u8>, String>)
    ensures
        r matches Ok(bytes) ==> (no_dir_names(pairs_view(entries@)) ==> archive_listing(bytes@)
            == Some(written_listing(pairs_view(entries@)))),
{
    let mut w = new_zip_builder();
    let mut i: usize = 0;
    while i < entries.len()
        invariant
            i <= entries.len(),
            zip_builder_entries(w) == pairs_view(entries@).take(i as int),
        decreases entries.len() - i,
    {
        let ghost before = zip_builder_entries(w);
        match start_zip_entry(&mut w, entries[i].0.as_str()) {
            Ok(()) => {},
            Err(e) => return Err(e),
        }
        match write_zip_bytes(&mut w, entries[i].1.as_slice()) {
            Ok(()) => {},
            Err(e) => return Err(e),
        }
        assert(zip_builder_entries(w) =~= pairs_view(entries@).take(i + 1)) by {
            assert(Seq::<u8>::empty() + entries@[i as int].1@ =~= entries@[i as int].1@);
            assert(pairs_view(entries@).take(i + 1) =~= before.push(pairs_view(entries@)[i as int]));
        }
        i += 1;
    }
    assert(pairs_view(entries@).take(entries.len() as int) =~= pairs_view(entries@));
    finish_zip(w)
}

/// The UTF-8 bytes of `s`.
pub fn text_bytes(s: &str) -> (v: Vec<u8>)
    ensures
        v@ == encode_utf8(s@),
{
    vstd::slice::slice_to_vec(s.as_bytes())
}

/// The text of entry `name`, when it exists and is valid UTF-8.
pub open spec fn zip_text(archive: Seq<u8>, name: Seq<char>) -> Option<Seq<char>> {
    match zip_entry(archive, name) {
        Some(b) => if valid_utf8(b) {
            Some(decode_utf8(b))
        } else {
            None
        },
        None => None,
    }
}

/// The text of entry `name` of a zip archive in memory.
pub fn read_zip_str(archive: &[u8], name: &str) -> (r: Result<String, String>)
    ensures
        match zip_text(archive@, name@) {
            Some(t) => r matches Ok(s) && s@ == t,
            None => r is Err,
        },
{
    match read_zip_entry(archive, name) {
        Ok(bytes) => utf8_text(bytes),
        Err(ZipFailure::Missing) => Err(concat("not in zip: ", name)),
        Err(ZipFailure::Broken) => Err(concat("not in zip: ", name)),
        Err(ZipFailure::Archive(e)) => Err(e),
        Err(ZipFailure::Read(e)) => Err(e),
    }
}

/// The text of entry `name` of a zip archive in memory; `None` when the archive opens and
/// has no such entry.
pub fn read_optional_zip_str(archive: &[u8], name: &str) -> (r: Result<Option<String>, String>)
    ensures
        if zip_lacks_entry(archive@, name@) {
            r matches Ok(None)
        } else {
            match zip_text(archive@, name@) {
                Some(t) => r matches Ok(Some(s)) && s@ == t,
                None => r is Err,
            }
        },
{
    match read_zip_entry(archive, name) {
        Ok(bytes) => match utf8_text(bytes) {
            Ok(t) => Ok(Some(t)),
            Err(e) => Err(e),
        },
        Err(ZipFailure::Missing) => Ok(None),
        Err(ZipFailure::Broken) => Err(concat("not in zip: ", name)),
        Err(ZipFailure::Archive(e)) => Err(e),
        Err(ZipFailure::Read(e)) => Err(e),
    }
}

pub type RelView = (Seq<char>, Seq<char>, Seq<char>);

/// The relationships whose type ends with `/vmlDrawing`, in order.
pub open spec fn vml_rels_spec(rs: Seq<RelView>) -> Seq<RelView>
    decreases rs.len(),
{
    if rs.len() == 0 {
        Seq::empty()
    } else {
        let rest = vml_rels_spec(rs.drop_last());
        if "/vmlDrawing"@.is_suffix_of(rs.last().1) {
            rest.push(rs.last())
        } else {
            rest
        }
    }
}

/// A copy of a relationship.
fn copy_rel(r: &ZipRel) -> (c: ZipRel)
    ensures
        rel_view(c) == rel_view(*r),
{
    ZipRel { id: r.id.clone(), rel_type: r.rel_type.clone(), target: r.target.clone() }
}


/// The drawing relationships among `rels`.
pub fn vml_only(rels: &Vec<ZipRel>) -> (r: Vec<ZipRel>)
    ensures
        rels_view(r@) == vml_rels_spec(rels_view(rels@)),
{
    let mut out: Vec<ZipRel> = Vec::new();
    let mut i: usize = 0;
    while i < rels.len()
        invariant
            i <= rels.len(),
            rels_view(out@) == vml_rels_spec(rels_view(rels@.take(i as int))),
        decreases rels.len() - i,
    {
        assert(rels_view(rels@.take(i + 1)).drop_last() =~= rels_view(rels@.take(i as int)));
        if ends_with_str(rels[i].rel_type.as_str(), "/vmlDrawing") {
            let ghost before = rels_view(out@);
            out.push(copy_rel(&rels[i]));
            assert(rels_view(out@) =~= before.push(rel_view(rels@[i as int])));
        }
        i += 1;
    }
    assert(rels@.take(rels.len() as int) =~= rels@);
    out
}

/// The media parts a VML drawing in directory `dir` refers to, copied from the template when
/// they are there.
pub open spec fn media_copies(tmpl: Seq<u8>, dir: Seq<char>, media: Seq<RelView>) -> Seq<
    (Seq<char>, Seq<u8>),
>
    decreases media.len(),
{
    if media.len() == 0 {
        Seq::empty()
    } else {
        let p = resolve_rel_spec(dir, media[0].2);
        let rest = media_copies(tmpl, dir, media.drop_first());
        match zip_entry(tmpl, p) {
            Some(b) => seq![(p, b)] + rest,
            None => rest,
        }
    }
}

/// The parts copied from the template for one drawing relationship: its media, its
/// relationships part, then the drawing itself; nothing when the drawing is not in the
/// template, and no media or relationships part when the latter is not there.
pub open spec fn rel_copies(tmpl: Seq<u8>, rel: RelView) -> Seq<(Seq<char>, Seq<u8>)> {
    let vml_path = resolve_rel_spec("xl/worksheets/"@, rel.2);
    match zip_entry(tmpl, vml_path) {
        None => Seq::empty(),
        Some(bytes) => {
            let rp = rels_path_spec(vml_path);
            let mid = match zip_entry(tmpl, rp) {
                None => Seq::empty(),
                Some(rb) => media_copies(tmpl, parent_dir_spec(vml_path), parse_rels_spec(lossy_text(rb)))
                    + seq![(rp, rb)],
            };
            mid + seq![(vml_path, bytes)]
        },
    }
}

/// The parts copied from the template for all drawing relationships, in order.
pub open spec fn all_copies(tmpl: Seq<u8>, vml: Seq<RelView>) -> Seq<(Seq<char>, Seq<u8>)>
    decreases vml.len(),
{
    if vml.len() == 0 {
        Seq::empty()
    } else {
        all_copies(tmpl, vml.drop_last()) + rel_copies(tmpl, vml.last())
    }
}

/// The view of named parts: name and bytes.
pub open spec fn pairs_view(v: Seq<(String, Vec<u8>)>) -> Seq<(Seq<char>, Seq<u8>)> {
    v.map_values(|x: (String, Vec<u8>)| (x.0@, x.1@))
}

/// Appends `(p, b)` to `out`.
fn push_pair(out: &mut Vec<(String, Vec<u8>)>, p: String, b: Vec<u8>)
    ensures
        pairs_view(final(out)@) == pairs_view(old(out)@).push((p@, b@)),
{
    let ghost before = pairs_view(out@);
    out.push((p, b));
    assert(pairs_view(out@) =~= before.push((p@, b@)));
}

/// The media of one drawing, copied from the template.
fn copy_media(tmpl: &[u8], dir: &str, media: &Vec<ZipRel>, out: &mut Vec<(String, Vec<u8>)>)
    ensures
        pairs_view(final(out)@) == pairs_view(old(out)@) + media_copies(tmpl@, dir@, rels_view(media@)),
{
    let mut i: usize = 0;
    assert(rels_view(media@).skip(0) =~= rels_view(media@));
    assert(pairs_view(out@) =~= pairs_view(old(out)@));
    while i < media.len()
        invariant
            i <= media.len(),
            pairs_view(old(out)@) + media_copies(tmpl@, dir@, rels_view(media@)) == pairs_view(out@)
                + media_copies(tmpl@, dir@, rels_view(media@).skip(i as int)),
        decreases media.len() - i,
    {
        let ghost m = rels_view(media@).skip(i as int);
        assert(m.drop_first() =~= rels_view(media@).skip(i + 1));
        assert(m[0] == rel_view(media@[i as int]));
        let media_path = resolve_zip_rel(dir, media[i].target.as_str());
        match read_zip_entry(tmpl, media_path.as_str()) {
            Ok(mb) => {
                let ghost before = pairs_view(out@);
                push_pair(out, media_path, mb);
                assert(before + (seq![(media_path@, mb@)] + media_copies(tmpl@, dir@, rels_view(media@).skip(i + 1)))
                    =~= pairs_view(out@) + media_copies(tmpl@, dir@, rels_view(media@).skip(i + 1)));
            },
            Err(_) => {},
        }
        i += 1;
    }
    assert(media_copies(tmpl@, dir@, rels_view(media@).skip(i as int)) =~= Seq::<(Seq<char>, Seq<u8>)>::empty());
    assert(pairs_view(out@) + Seq::<(Seq<char>, Seq<u8>)>::empty() =~= pairs_view(out@));
}

/// The parts copied from the template for every drawing relationship.
fn copy_parts(tmpl: &[u8], vml: &Vec<ZipRel>) -> (out: Vec<(String, Vec<u8>)>)
    ensures
        pairs_view(out@) == all_copies(tmpl@, rels_view(vml@)),
{
    let mut out: Vec<(String, Vec<u8>)> = Vec::new();
    let mut i: usize = 0;
    assert(pairs_view(out@) =~= all_copies(tmpl@, rels_view(vml@.take(0))));
    while i < vml.len()
        invariant
            i <= vml.len(),
            pairs_view(out@) == all_copies(tmpl@, rels_view(vml@.take(i as int))),
        decreases vml.len() - i,
    {
        let ghost before = pairs_view(out@);
        assert(rels_view(vml@.take(i + 1)).drop_last() =~= rels_view(vml@.take(i as int)));
        assert(rels_view(vml@.take(i + 1)).last() == rel_view(vml@[i as int]));
        proof {
            reveal_strlit("xl/worksheets/");
        }
        let vml_path = resolve_zip_rel("xl/worksheets/", vml[i].target.as_str());
        match read_zip_entry(tmpl, vml_path.as_str()) {
            Ok(bytes) => {
                let vml_rels_path = make_rels_path(vml_path.as_str());
                match read_zip_entry(tmpl, vml_rels_path.as_str()) {
                    Ok(vml_rels_bytes) => {
                        let text = utf8_lossy(vml_rels_bytes.as_slice());
                        let media = parse_zip_rels(text.as_str());
                        let dir = parent_dir(vml_path.as_str());
                        copy_media(tmpl, dir.as_str(), &media, &mut out);
                        push_pair(&mut out, vml_rels_path, vml_rels_bytes);
                    },
                    Err(_) => {},
                }
                push_pair(&mut out, vml_path, bytes);
            },
            Err(_) => {},
        }
        assert(pairs_view(out@) =~= before + rel_copies(tmpl@, rel_view(vml@[i as int])));
        i += 1;
    }
    assert(vml@.take(vml.len() as int) =~= vml@);
    out
}

/// The names of the parts, in order.
pub open spec fn names_of(v: Seq<(Seq<char>, Seq<u8>)>) -> Seq<Seq<char>> {
    v.map_values(|x: (Seq<char>, Seq<u8>)| x.0)
}

/// The bytes of the first entry named `k`.
pub open spec fn lookup(v: Seq<(Seq<char>, Seq<u8>)>, k: Seq<char>) -> Option<Seq<u8>>
    decreases v.len(),
{
    if v.len() == 0 {
        None
    } else if v[0].0 == k {
        Some(v[0].1)
    } else {
        lookup(v.drop_first(), k)
    }
}

proof fn lemma_lookup_first(v: Seq<(Seq<char>, Seq<u8>)>, k: Seq<char>, i: int)
    requires
        0 <= i < v.len(),
        v[i].0 == k,
        forall|j: int| 0 <= j < i ==> (#[trigger] v[j]).0 != k,
    ensures
        lookup(v, k) == Some(v[i].1),
    decreases i,
{
    if i > 0 {
        assert forall|j: int| 0 <= j < i - 1 implies (#[trigger] v.drop_first()[j]).0 != k by {
            assert(v.drop_first()[j] == v[j + 1]);
        }
        lemma_lookup_first(v.drop_first(), k, i - 1);
    }
}

proof fn lemma_lookup_none(v: Seq<(Seq<char>, Seq<u8>)>, k: Seq<char>)
    requires
        forall|j: int| 0 <= j < v.len() ==> (#[trigger] v[j]).0 != k,
    ensures
        lookup(v, k) is None,
    decreases v.len(),
{
    if v.len() > 0 {
        assert forall|j: int| 0 <= j < v.len() - 1 implies (#[trigger] v.drop_first()[j]).0 != k by {
            assert(v.drop_first()[j] == v[j + 1]);
        }
        lemma_lookup_none(v.drop_first(), k);
    }
}

/// In a list with strictly ascending names, the entry named `k` is found wherever it is.
proof fn lemma_lookup_sorted(v: Seq<(Seq<char>, Seq<u8>)>, k: Seq<char>, i: int)
    requires
        strictly_sorted_strs(names_of(v)),
        0 <= i < v.len(),
        v[i].0 == k,
    ensures
        lookup(v, k) == Some(v[i].1),
{
    assert forall|j: int| 0 <= j < i implies (#[trigger] v[j]).0 != k by {
        assert(str_lt(names_of(v)[j], names_of(v)[i]));
        lemma_str_lt_irreflexive(k);
    }
    lemma_lookup_first(v, k, i);
}

/// The position of the entry named `name`.
pub fn find_entry(entries: &Vec<(String, Vec<u8>)>, name: &str) -> (r: Option<usize>)
    ensures
        match lookup(pairs_view(entries@), name@) {
            Some(b) => r matches Some(i) && i < entries@.len() && entries@[i as int].0@ == name@
                && entries@[i as int].1@ == b,
            None => r is None,
        },
{
    let ghost v = pairs_view(entries@);
    let mut i: usize = 0;
    while i < entries.len()
        invariant
            i <= entries.len(),
            v == pairs_view(entries@),
            forall|j: int| 0 <= j < i ==> (#[trigger] v[j]).0 != name@,
        decreases entries.len() - i,
    {
        if str_eq(entries[i].0.as_str(), name) {
            proof {
                lemma_lookup_first(v, name@, i as int);
            }
            return Some(i);
        }
        i += 1;
    }
    proof {
        lemma_lookup_none(v, name@);
    }
    None
}

/// Sets the entry named `name` to `bytes`, keeping names strictly ascending.
pub fn upsert(entries: &mut Vec<(String, Vec<u8>)>, name: String, bytes: Vec<u8>)
    requires
        strictly_sorted_strs(names_of(pairs_view(old(entries)@))),
    ensures
        strictly_sorted_strs(names_of(pairs_view(final(entries)@))),
        forall|k: Seq<char>|
            #[trigger] lookup(pairs_view(final(entries)@), k) == if k == name@ {
                Some(bytes@)
            } else {
                lookup(pairs_view(old(entries)@), k)
            },
{
    let ghost o = pairs_view(entries@);
    let mut p: usize = 0;
    while p < entries.len() && str_less(entries[p].0.as_str(), name.as_str())
        invariant
            p <= entries.len(),
            o == pairs_view(entries@),
            forall|q: int| 0 <= q < p ==> str_lt(#[trigger] names_of(o)[q], name@),
        decreases entries.len() - p,
    {
        p += 1;
    }
    let replace = p < entries.len() && str_eq(entries[p].0.as_str(), name.as_str());
    if p < entries.len() && !replace {
        proof {
            lemma_str_lt_total(names_of(o)[p as int], name@);
        }
    }
    let ghost nv = name@;
    let ghost bv = bytes@;
    if replace {
        entries.remove(p);
    }
    entries.insert(p, (name, bytes));
    proof {
        let n = pairs_view(entries@);
        let skip: int = if replace { 1 } else { 0 };
        // n is o with position p replaced (or filled) by (nv, bv).
        assert(n.len() == o.len() + 1 - skip);
        assert forall|q: int| 0 <= q < n.len() implies #[trigger] n[q] == (if q < p {
            o[q]
        } else if q == p {
            (nv, bv)
        } else {
            o[q - 1 + skip]
        }) by {}
        assert forall|a: int, b: int| 0 <= a < b < n.len() implies str_lt(
            #[trigger] names_of(n)[a],
            #[trigger] names_of(n)[b],
        ) by {
            if b < p {
                assert(str_lt(names_of(o)[a], names_of(o)[b]));
            } else if b == p {
                assert(str_lt(names_of(o)[a], nv));
            } else if a < p {
                assert(str_lt(names_of(o)[a], nv));
                if p < o.len() {
                    if skip == 0 {
                        assert(str_lt(nv, names_of(o)[p as int]));
                        if b - 1 > p {
                            assert(str_lt(names_of(o)[p as int], names_of(o)[b - 1]));
                            lemma_str_lt_transitive(nv, names_of(o)[p as int], names_of(o)[b - 1]);
                        }
                    } else {
                        assert(names_of(o)[p as int] == nv);
                        assert(str_lt(names_of(o)[p as int], names_of(o)[b]));
                    }
                }
                lemma_str_lt_transitive(names_of(o)[a], nv, names_of(n)[b]);
            } else if a == p {
                if skip == 0 {
                    assert(str_lt(nv, names_of(o)[p as int]));
                    if b - 1 > p {
                        assert(str_lt(names_of(o)[p as int], names_of(o)[b - 1]));
                        lemma_str_lt_transitive(nv, names_of(o)[p as int], names_of(o)[b - 1]);
                    }
                } else {
                    assert(names_of(o)[p as int] == nv);
                    assert(str_lt(names_of(o)[p as int], names_of(o)[b]));
                }
            } else {
                assert(str_lt(names_of(o)[a - 1 + skip], names_of(o)[b - 1 + skip]));
            }
        }
        assert forall|k: Seq<char>| #[trigger] lookup(n, k) == if k == nv {
            Some(bv)
        } else {
            lookup(o, k)
        } by {
            if k == nv {
                lemma_lookup_sorted(n, k, p as int);
            } else {
                if exists|i: int| 0 <= i < o.len() && o[i].0 == k {
                    let i = choose|i: int| 0 <= i < o.len() && o[i].0 == k;
                    lemma_lookup_sorted(o, k, i);
                    if i < p {
                        assert(n[i] == o[i]);
                        lemma_lookup_sorted(n, k, i);
                    } else {
                        assert(i != p || skip == 0);
                        if skip == 1 {
                            assert(i > p);
                            assert(n[i] == o[i]);
                            lemma_lookup_sorted(n, k, i);
                        } else {
                            assert(n[i + 1] == o[i]);
                            lemma_lookup_sorted(n, k, i + 1);
                        }
                    }
                } else {
                    lemma_lookup_none(o, k);
                    assert forall|j: int| 0 <= j < n.len() implies (#[trigger] n[j]).0 != k by {
                        if j < p {
                            assert(n[j] == o[j]);
                        } else if j > p {
                            assert(n[j] == o[j - 1 + skip]);
                        }
                    }
                    lemma_lookup_none(n, k);
                }
            }
        }
    }
}

/// Sets the entry named `name` to `bytes` unless there is one already.
pub fn insert_absent(entries: &mut Vec<(String, Vec<u8>)>, name: String, bytes: Vec<u8>)
    requires
        strictly_sorted_strs(names_of(pairs_view(old(entries)@))),
    ensures
        strictly_sorted_strs(names_of(pairs_view(final(entries)@))),
        forall|k: Seq<char>|
            #[trigger] lookup(pairs_view(final(entries)@), k) == if k == name@ && lookup(
                pairs_view(old(entries)@),
                k,
            ) is None {
                Some(bytes@)
            } else {
                lookup(pairs_view(old(entries)@), k)
            },
{
    match find_entry(entries, name.as_str()) {
        Some(_) => {},
        None => upsert(entries, name, bytes),
    }
}

/// The bytes of the last file (not directory) entry named `k` of an archive listing.
pub open spec fn listing_lookup(l: Seq<(Seq<char>, bool, Seq<u8>)>, k: Seq<char>) -> Option<
    Seq<u8>,
>
    decreases l.len(),
{
    if l.len() == 0 {
        None
    } else if l.last().0 == k && !l.last().1 {
        Some(l.last().2)
    } else {
        listing_lookup(l.drop_last(), k)
    }
}

/// The file entries of an archive listing with names in ascending order; of entries with
/// equal names the last one counts.
pub fn entries_of(items: Vec<ZipItem>) -> (r: Vec<(String, Vec<u8>)>)
    ensures
        strictly_sorted_strs(names_of(pairs_view(r@))),
        forall|k: Seq<char>| #[trigger]
            lookup(pairs_view(r@), k) == listing_lookup(items_view(items@), k),
{
    let ghost all = items_view(items@);
    let mut items = items;
    let mut r: Vec<(String, Vec<u8>)> = Vec::new();
    assert(all.take(items@.len() as int) =~= all);
    while items.len() > 0
        invariant
            all.take(items@.len() as int) == items_view(items@),
            items@.len() <= all.len(),
            strictly_sorted_strs(names_of(pairs_view(r@))),
            forall|k: Seq<char>| #[trigger]
                listing_lookup(all, k) == match lookup(pairs_view(r@), k) {
                    Some(x) => Some(x),
                    None => listing_lookup(all.take(items@.len() as int), k),
                },
        decreases items@.len(),
    {
        let ghost n = items@.len() as int;
        let ghost before = pairs_view(r@);
        let item = items.pop().unwrap();
        assert(all.take(n).drop_last() =~= all.take(n - 1));
        assert(all.take(n).last() == (item.name@, item.is_dir, item.bytes@));
        assert(items_view(items@) =~= all.take(n - 1));
        if !item.is_dir {
            let ghost nm = item.name@;
            insert_absent(&mut r, item.name, item.bytes);
            assert forall|k: Seq<char>| #[trigger]
                listing_lookup(all, k) == match lookup(pairs_view(r@), k) {
                    Some(x) => Some(x),
                    None => listing_lookup(all.take(n - 1), k),
                } by {
                assert(listing_lookup(all, k) == match lookup(before, k) {
                    Some(x) => Some(x),
                    None => listing_lookup(all.take(n), k),
                });
            }
        } else {
            assert forall|k: Seq<char>| #[trigger]
                listing_lookup(all, k) == match lookup(pairs_view(r@), k) {
                    Some(x) => Some(x),
                    None => listing_lookup(all.take(n - 1), k),
                } by {
                assert(listing_lookup(all, k) == match lookup(before, k) {
                    Some(x) => Some(x),
                    None => listing_lookup(all.take(n), k),
                });
            }
        }
    }
    assert forall|k: Seq<char>| #[trigger] lookup(pairs_view(r@), k) == listing_lookup(all, k) by {
        assert(all.take(0).len() == 0);
    }
    r
}

/// The characters `rId`, the prefix of numbered relationship ids.
pub open spec fn rid_prefix() -> Seq<char> {
    seq!['r', 'I', 'd']
}

/// The number of a relationship id `rId<n>`, read as `str::parse::<u32>` reads `<n>`.
pub open spec fn rid_number(id: Seq<char>) -> Option<u32> {
    if rid_prefix().is_prefix_of(id) {
        parse_u32(id.skip(3))
    } else {
        None
    }
}

/// The largest number among the numbered ids of `rels`, or 0.
pub open spec fn max_rid(rels: Seq<RelView>) -> u32
    decreases rels.len(),
{
    if rels.len() == 0 {
        0
    } else {
        let m = max_rid(rels.drop_last());
        match rid_number(rels.last().0) {
            Some(n) => if n > m {
                n
            } else {
                m
            },
            None => m,
        }
    }
}

/// The number of a relationship id `rId<n>`.
pub fn rid_number_of(id: &str) -> (r: Option<u32>)
    ensures
        r == rid_number(id@),
{
    let c = chars_of(id);
    if c.len() >= 3 && c[0] == 'r' && c[1] == 'I' && c[2] == 'd' {
        assert(rid_prefix() =~= c@.take(3));
        let digits = slice_chars(&c, 3, c.len());
        assert(digits@ =~= id@.skip(3));
        parse_u32_chars(&digits)
    } else {
        assert(!rid_prefix().is_prefix_of(id@));
        None
    }
}

/// The largest number among the numbered ids of `rels`, or 0.
pub fn max_rid_of(rels: &Vec<ZipRel>) -> (m: u32)
    ensures
        m == max_rid(rels_view(rels@)),
{
    let mut m: u32 = 0;
    let mut i: usize = 0;
    while i < rels.len()
        invariant
            i <= rels.len(),
            m == max_rid(rels_view(rels@.take(i as int))),
        decreases rels.len() - i,
    {
        assert(rels_view(rels@.take(i + 1)).drop_last() =~= rels_view(rels@.take(i as int)));
        assert(rels_view(rels@.take(i + 1)).last() == rel_view(rels@[i as int]));
        match rid_number_of(rels[i].id.as_str()) {
            Some(n) => {
                if n > m {
                    m = n;
                }
            },
            None => {},
        }
        i += 1;
    }
    assert(rels@.take(rels.len() as int) =~= rels@);
    m
}

/// A relationship id `rId<n>`.
pub open spec fn new_rid(n: nat) -> Seq<char> {
    rid_prefix() + decimal_text(n)
}

/// Whether no key occurs twice among the pairs.
pub open spec fn distinct_keys(ps: Seq<(Seq<char>, Seq<char>)>) -> bool {
    forall|a: int, b: int| 0 <= a < b < ps.len() ==> (#[trigger] ps[a]).0 != (#[trigger] ps[b]).0
}

/// Whether `k` is a key among the pairs.
pub open spec fn has_key(ps: Seq<(Seq<char>, Seq<char>)>, k: Seq<char>) -> bool {
    exists|j: int| 0 <= j < ps.len() && (#[trigger] ps[j]).0 == k
}

/// The value paired with `k`.
pub open spec fn pair_value(ps: Seq<(Seq<char>, Seq<char>)>, k: Seq<char>) -> Seq<char> {
    ps[choose|j: int| 0 <= j < ps.len() && (#[trigger] ps[j]).0 == k].1
}

/// The pairs with `k` set to `v`: in place where `k` is a key, else appended.
pub open spec fn set_pair(ps: Seq<(Seq<char>, Seq<char>)>, k: Seq<char>, v: Seq<char>) -> Seq<
    (Seq<char>, Seq<char>),
> {
    if has_key(ps, k) {
        ps.update(choose|j: int| 0 <= j < ps.len() && (#[trigger] ps[j]).0 == k, (k, v))
    } else {
        ps.push((k, v))
    }
}

/// The new id of each drawing relationship, keyed by its template id, in the order the ids
/// first occur: the `i`-th relationship gets `rId<base + 1 + i>`, and of equal template ids
/// the last one's new id counts.
pub open spec fn rid_pairs(vml: Seq<RelView>, base: nat) -> Seq<(Seq<char>, Seq<char>)>
    decreases vml.len(),
{
    if vml.len() == 0 {
        Seq::empty()
    } else {
        set_pair(rid_pairs(vml.drop_last(), base), vml.last().0, new_rid(base + vml.len()))
    }
}

/// The view of pairs of strings.
pub open spec fn str_pairs(v: Seq<(String, String)>) -> Seq<(Seq<char>, Seq<char>)> {
    v.map_values(|x: (String, String)| (x.0@, x.1@))
}

/// The position of key `k` among the pairs.
pub fn key_position(ps: &Vec<(String, String)>, k: &str) -> (r: Option<usize>)
    requires
        distinct_keys(str_pairs(ps@)),
    ensures
        has_key(str_pairs(ps@), k@) <==> r is Some,
        r matches Some(j) ==> j < ps@.len() && ps@[j as int].0@ == k@ && (choose|i: int|
            0 <= i < str_pairs(ps@).len() && (#[trigger] str_pairs(ps@)[i]).0 == k@) == j,
{
    let ghost v = str_pairs(ps@);
    let mut i: usize = 0;
    while i < ps.len()
        invariant
            i <= ps.len(),
            v == str_pairs(ps@),
            distinct_keys(v),
            forall|j: int| 0 <= j < i ==> (#[trigger] v[j]).0 != k@,
        decreases ps.len() - i,
    {
        if str_eq(ps[i].0.as_str(), k) {
            assert(v[i as int].0 == k@);
            let ghost c = choose|j: int| 0 <= j < v.len() && (#[trigger] v[j]).0 == k@;
            assert(c == i) by {
                if c < i {
                } else if c > i {
                    assert(v[i as int].0 != v[c].0);
                }
            }
            return Some(i);
        }
        i += 1;
    }
    None
}

/// The new ids of the drawing relationships, numbered on from `base`.
pub fn rid_pairs_of(vml: &Vec<ZipRel>, base: u32) -> (r: Vec<(String, String)>)
    requires
        base + vml@.len() <= u32::MAX,
    ensures
        str_pairs(r@) == rid_pairs(rels_view(vml@), base as nat),
        distinct_keys(str_pairs(r@)),
        forall|i: int| 0 <= i < vml@.len() ==> has_key(str_pairs(r@), #[trigger] vml@[i].id@),
{
    let mut r: Vec<(String, String)> = Vec::new();
    let mut i: usize = 0;
    while i < vml.len()
        invariant
            i <= vml.len(),
            base + vml@.len() <= u32::MAX,
            str_pairs(r@) == rid_pairs(rels_view(vml@.take(i as int)), base as nat),
            distinct_keys(str_pairs(r@)),
            forall|j: int| 0 <= j < i ==> has_key(str_pairs(r@), #[trigger] vml@[j].id@),
        decreases vml.len() - i,
    {
        let ghost before = str_pairs(r@);
        let ghost t = rels_view(vml@.take(i + 1));
        assert(t.drop_last() =~= rels_view(vml@.take(i as int)));
        assert(t.last() == rel_view(vml@[i as int]));
        let n: u32 = base + 1 + (i as u32);
        let id = concat("rId", decimal_string(n as usize).as_str());
        proof {
            reveal_strlit("rId");
            assert("rId"@ =~= rid_prefix());
            assert(t.len() == i + 1);
        }
        let key = vml[i].id.clone();
        match key_position(&r, key.as_str()) {
            Some(j) => {
                let ghost kv = key@;
                r.set(j, (key, id));
                proof {
                    let after = str_pairs(r@);
                    assert(after =~= before.update(j as int, (kv, new_rid((base + 1 + i) as nat))));
                    assert forall|a: int, b: int| 0 <= a < b < after.len() implies
                        (#[trigger] after[a]).0 != (#[trigger] after[b]).0 by {
                        assert(before[a].0 != before[b].0);
                    }
                    assert forall|jj: int| 0 <= jj <= i implies has_key(after, #[trigger] vml@[jj].id@) by {
                        if jj < i {
                            let w = choose|w: int| 0 <= w < before.len() && (#[trigger] before[w]).0 == vml@[jj].id@;
                            assert(after[w].0 == before[w].0);
                        } else {
                            assert(after[j as int].0 == kv);
                        }
                    }
                }
            },
            None => {
                let ghost kv = key@;
                r.push((key, id));
                proof {
                    let after = str_pairs(r@);
                    assert(after =~= before.push((kv, new_rid((base + 1 + i) as nat))));
                    assert forall|a: int, b: int| 0 <= a < b < after.len() implies
                        (#[trigger] after[a]).0 != (#[trigger] after[b]).0 by {
                        if b == before.len() {
                            assert(!has_key(before, kv));
                            assert(before[a] == after[a]);
                        } else {
                            assert(before[a].0 != before[b].0);
                        }
                    }
                    assert forall|jj: int| 0 <= jj <= i implies has_key(after, #[trigger] vml@[jj].id@) by {
                        if jj < i {
                            let w = choose|w: int| 0 <= w < before.len() && (#[trigger] before[w]).0 == vml@[jj].id@;
                            assert(after[w].0 == before[w].0);
                        } else {
                            assert(after[before.len() as int].0 == kv);
                        }
                    }
                }
            },
        }
        i += 1;
    }
    assert(vml@.take(vml.len() as int) =~= vml@);
    r
}

/// The value paired with `k`, which must be a key.
pub fn value_of(ps: &Vec<(String, String)>, k: &str) -> (r: String)
    requires
        distinct_keys(str_pairs(ps@)),
        has_key(str_pairs(ps@), k@),
    ensures
        r@ == pair_value(str_pairs(ps@), k@),
{
    let j = key_position(ps, k).unwrap();
    ps[j].1.clone()
}

/// The closing tag of a relationships part.
pub open spec fn rels_close() -> Seq<char> {
    "</Relationships>"@
}

/// A relationship element.
pub open spec fn rel_entry(id: Seq<char>, ty: Seq<char>, target: Seq<char>) -> Seq<char> {
    "<Relationship Id=\""@ + id + "\" Type=\""@ + ty + "\" Target=\""@ + target + "\"/>"@
}

/// The relationships part with an element for each drawing relationship, under its new id,
/// put before every `</Relationships>`.
pub open spec fn rels_text(xml: Seq<char>, vml: Seq<RelView>, ps: Seq<(Seq<char>, Seq<char>)>) -> Seq<
    char,
>
    decreases vml.len(),
{
    if vml.len() == 0 {
        xml
    } else {
        let r = vml.last();
        replace_all(
            rels_text(xml, vml.drop_last(), ps),
            rels_close(),
            rel_entry(pair_value(ps, r.0), r.1, r.2) + rels_close(),
        )
    }
}

/// A relationship element.
pub fn rel_entry_string(id: &str, ty: &str, target: &str) -> (r: String)
    ensures
        r@ == rel_entry(id@, ty@, target@),
{
    let a = concat("<Relationship Id=\"", id);
    let b = concat(a.as_str(), "\" Type=\"");
    let c = concat(b.as_str(), ty);
    let d = concat(c.as_str(), "\" Target=\"");
    let e = concat(d.as_str(), target);
    concat(e.as_str(), "\"/>")
}

/// The relationships part with the drawing relationships added under their new ids.
pub fn patch_rels(xml: String, vml: &Vec<ZipRel>, ps: &Vec<(String, String)>) -> (r: String)
    requires
        distinct_keys(str_pairs(ps@)),
        forall|i: int| 0 <= i < vml@.len() ==> has_key(str_pairs(ps@), #[trigger] vml@[i].id@),
    ensures
        r@ == rels_text(xml@, rels_view(vml@), str_pairs(ps@)),
{
    let mut x = xml;
    let mut i: usize = 0;
    proof {
        reveal_strlit("</Relationships>");
    }
    while i < vml.len()
        invariant
            i <= vml.len(),
            distinct_keys(str_pairs(ps@)),
            forall|i: int| 0 <= i < vml@.len() ==> has_key(str_pairs(ps@), #[trigger] vml@[i].id@),
            x@ == rels_text(xml@, rels_view(vml@.take(i as int)), str_pairs(ps@)),
            "</Relationships>"@.len() > 0,
        decreases vml.len() - i,
    {
        let ghost t = rels_view(vml@.take(i + 1));
        assert(t.drop_last() =~= rels_view(vml@.take(i as int)));
        assert(t.last() == rel_view(vml@[i as int]));
        let id = value_of(ps, vml[i].id.as_str());
        let entry = rel_entry_string(id.as_str(), vml[i].rel_type.as_str(), vml[i].target.as_str());
        let rep = concat(entry.as_str(), "</Relationships>");
        x = replace_str(x.as_str(), "</Relationships>", rep.as_str());
        i += 1;
    }
    assert(vml@.take(vml.len() as int) =~= vml@);
    x
}

/// The closing tag of a worksheet.
pub open spec fn sheet_close() -> Seq<char> {
    "</worksheet>"@
}

/// The attribute `r:id="<id>"`.
pub open spec fn rid_attr(id: Seq<char>) -> Seq<char> {
    "r:id=\""@ + id + "\""@
}

/// A header/footer element with each old id replaced by its new one, pair by pair in order.
pub open spec fn patch_elem(e: Seq<char>, ps: Seq<(Seq<char>, Seq<char>)>) -> Seq<char>
    decreases ps.len(),
{
    if ps.len() == 0 {
        e
    } else {
        replace_all(patch_elem(e, ps.drop_last()), rid_attr(ps.last().0), rid_attr(ps.last().1))
    }
}

/// The sheet with each header/footer element, its ids replaced, put before every
/// `</worksheet>`.
pub open spec fn sheet_text(xml: Seq<char>, hf: Seq<Seq<char>>, ps: Seq<(Seq<char>, Seq<char>)>) -> Seq<
    char,
>
    decreases hf.len(),
{
    if hf.len() == 0 {
        xml
    } else {
        replace_all(
            sheet_text(xml, hf.drop_last(), ps),
            sheet_close(),
            patch_elem(hf.last(), ps) + sheet_close(),
        )
    }
}

/// The attribute `r:id="<id>"`.
fn rid_attr_string(id: &str) -> (r: String)
    ensures
        r@ == rid_attr(id@),
        r@.len() > 0,
{
    proof {
        reveal_strlit("r:id=\"");
    }
    let a = concat("r:id=\"", id);
    concat(a.as_str(), "\"")
}

/// A header/footer element with the old ids replaced by the new ones.
pub fn patch_elem_string(e: &str, ps: &Vec<(String, String)>) -> (r: String)
    ensures
        r@ == patch_elem(e@, str_pairs(ps@)),
{
    let mut x = String::from_str(e);
    let mut i: usize = 0;
    while i < ps.len()
        invariant
            i <= ps.len(),
            x@ == patch_elem(e@, str_pairs(ps@).take(i as int)),
        decreases ps.len() - i,
    {
        let ghost t = str_pairs(ps@).take(i + 1);
        assert(t.drop_last() =~= str_pairs(ps@).take(i as int));
        let old_attr = rid_attr_string(ps[i].0.as_str());
        let new_attr = rid_attr_string(ps[i].1.as_str());
        x = replace_str(x.as_str(), old_attr.as_str(), new_attr.as_str());
        i += 1;
    }
    assert(str_pairs(ps@).take(ps.len() as int) =~= str_pairs(ps@));
    x
}

/// The sheet with the header/footer elements added.
pub fn patch_sheet(xml: String, hf: &Vec<String>, ps: &Vec<(String, String)>) -> (r: String)
    ensures
        r@ == sheet_text(xml@, strs(hf@), str_pairs(ps@)),
{
    let mut x = xml;
    let mut i: usize = 0;
    proof {
        reveal_strlit("</worksheet>");
    }
    while i < hf.len()
        invariant
            i <= hf.len(),
            x@ == sheet_text(xml@, strs(hf@).take(i as int), str_pairs(ps@)),
            "</worksheet>"@.len() > 0,
        decreases hf.len() - i,
    {
        let ghost t = strs(hf@).take(i + 1);
        assert(t.drop_last() =~= strs(hf@).take(i as int));
        let patched = patch_elem_string(hf[i].as_str(), ps);
        let rep = concat(patched.as_str(), "</worksheet>");
        x = replace_str(x.as_str(), "</worksheet>", rep.as_str());
        i += 1;
    }
    assert(strs(hf@).take(hf.len() as int) =~= strs(hf@));
    x
}

/// The closing tag of the content types part.
pub open spec fn types_close() -> Seq<char> {
    "</Types>"@
}

/// The content types a package with drawings and their media needs: extension and type.
pub open spec fn content_defaults() -> Seq<(Seq<char>, Seq<char>)> {
    seq![
        ("vml"@, "application/vnd.openxmlformats-officedocument.vmlDrawing"@),
        ("png"@, "image/png"@),
        ("jpg"@, "image/jpeg"@),
        ("jpeg"@, "image/jpeg"@),
        ("gif"@, "image/gif"@),
        ("tiff"@, "image/tiff"@),
        ("emf"@, "image/x-emf"@),
    ]
}

/// The attribute `Extension="<ext>"`.
pub open spec fn ext_attr(ext: Seq<char>) -> Seq<char> {
    "Extension=\""@ + ext + "\""@
}

/// A default content type element.
pub open spec fn default_elem(ext: Seq<char>, mime: Seq<char>) -> Seq<char> {
    "<Default Extension=\""@ + ext + "\" ContentType=\""@ + mime + "\"/>"@
}

/// The content types part with a default element, before every `</Types>`, for each
/// extension that has none yet.
pub open spec fn types_text(xml: Seq<char>, ds: Seq<(Seq<char>, Seq<char>)>) -> Seq<char>
    decreases ds.len(),
{
    if ds.len() == 0 {
        xml
    } else {
        let prev = types_text(xml, ds.drop_last());
        let d = ds.last();
        if contains_seq(prev, ext_attr(d.0)) {
            prev
        } else {
            replace_all(prev, types_close(), default_elem(d.0, d.1) + types_close())
        }
    }
}

/// The content types part with the drawing and media types added where missing.
pub fn patch_types(xml: String) -> (r: String)
    ensures
        r@ == types_text(xml@, content_defaults()),
{
    let ds: Vec<(&str, &str)> = vec![
        ("vml", "application/vnd.openxmlformats-officedocument.vmlDrawing"),
        ("png", "image/png"),
        ("jpg", "image/jpeg"),
        ("jpeg", "image/jpeg"),
        ("gif", "image/gif"),
        ("tiff", "image/tiff"),
        ("emf", "image/x-emf"),
    ];
    let ghost dv = ds@.map_values(|d: (&str, &str)| (d.0@, d.1@));
    assert(dv =~= content_defaults());
    let mut x = xml;
    let mut i: usize = 0;
    proof {
        reveal_strlit("</Types>");
    }
    while i < ds.len()
        invariant
            i <= ds.len(),
            dv == ds@.map_values(|d: (&str, &str)| (d.0@, d.1@)),
            x@ == types_text(xml@, dv.take(i as int)),
            "</Types>"@.len() > 0,
        decreases ds.len() - i,
    {
        let ghost t = dv.take(i + 1);
        assert(t.drop_last() =~= dv.take(i as int));
        let (ext, mime) = ds[i];
        assert(ext@ == dv[i as int].0 && mime@ == dv[i as int].1);
        let a = concat("Extension=\"", ext);
        let attr = concat(a.as_str(), "\"");
        assert(attr@ =~= ext_attr(ext@));
        assert(t.last() == dv[i as int]);
        if !contains_str(x.as_str(), attr.as_str()) {
            let b = concat("<Default Extension=\"", ext);
            let c = concat(b.as_str(), "\" ContentType=\"");
            let d = concat(c.as_str(), mime);
            let e = concat(d.as_str(), "\"/></Types>");
            proof {
                reveal_strlit("\"/></Types>");
                reveal_strlit("\"/>");
                reveal_strlit("</Types>");
                assert("\"/></Types>"@ =~= "\"/>"@ + "</Types>"@);
                assert(e@ =~= default_elem(ext@, mime@) + types_close());
            }
            x = replace_str(x.as_str(), "</Types>", e.as_str());
        }
        i += 1;
    }
    assert(dv.take(ds.len() as int) =~= dv);
    x
}

/// The first entry named `k` after appending `x`: the one before, else `x` when it is named `k`.
proof fn lemma_lookup_push(s: Seq<(Seq<char>, Seq<u8>)>, x: (Seq<char>, Seq<u8>), k: Seq<char>)
    ensures
        lookup(s.push(x), k) == match lookup(s, k) {
            Some(v) => Some(v),
            None => if x.0 == k {
                Some(x.1)
            } else {
                None
            },
        },
    decreases s.len(),
{
    assert(s.push(x)[0] == if s.len() > 0 {
        s[0]
    } else {
        x
    });
    if s.len() > 0 {
        assert(s.push(x).drop_first() =~= s.drop_first().push(x));
        lemma_lookup_push(s.drop_first(), x, k);
    } else {
        assert(s.push(x).drop_first() =~= Seq::<(Seq<char>, Seq<u8>)>::empty());
    }
}

/// The relationships part of the first sheet.
pub open spec fn sheet_rels_name() -> Seq<char> {
    "xl/worksheets/_rels/sheet1.xml.rels"@
}

/// The first sheet.
pub open spec fn sheet_name() -> Seq<char> {
    "xl/worksheets/sheet1.xml"@
}

/// The content types part.
pub open spec fn content_types_name() -> Seq<char> {
    "[Content_Types].xml"@
}

/// An empty relationships part.
pub open spec fn default_rels() -> Seq<char> {
    "<?xml version=\"1.0\" encoding=\"UTF-8\" standalone=\"yes\"?><Relationships xmlns=\"http://schemas.openxmlformats.org/package/2006/relationships\"></Relationships>"@
}

/// The text of the written sheet's relationships part, or empty when it cannot be read.
pub open spec fn output_rels_text(output: Seq<u8>) -> Seq<char> {
    match zip_text(output, sheet_rels_name()) {
        Some(t) => t,
        None => Seq::empty(),
    }
}

/// The largest relationship number already used by the written sheet.
pub open spec fn output_base(output: Seq<u8>) -> u32 {
    max_rid(parse_rels_spec(output_rels_text(output)))
}

/// What the written package holds under `k` once the sheet, its relationships and the
/// content types are patched, before the template's parts are added.
pub open spec fn patched_part(
    listing: Seq<(Seq<char>, bool, Seq<u8>)>,
    vml: Seq<RelView>,
    hf: Seq<Seq<char>>,
    ps: Seq<(Seq<char>, Seq<char>)>,
    k: Seq<char>,
) -> Option<Seq<u8>> {
    if k == sheet_rels_name() {
        let before = match listing_lookup(listing, k) {
            Some(b) => lossy_text(b),
            None => default_rels(),
        };
        Some(encode_utf8(rels_text(before, vml, ps)))
    } else if k == sheet_name() {
        match listing_lookup(listing, k) {
            Some(b) => Some(encode_utf8(sheet_text(lossy_text(b), hf, ps))),
            None => None,
        }
    } else if k == content_types_name() {
        match listing_lookup(listing, k) {
            Some(b) => Some(encode_utf8(types_text(lossy_text(b), content_defaults()))),
            None => None,
        }
    } else {
        listing_lookup(listing, k)
    }
}

/// What the patched package holds under `k`: the patched part, else the first part of that
/// name copied from the template.
pub open spec fn patched_entry(
    template: Seq<u8>,
    listing: Seq<(Seq<char>, bool, Seq<u8>)>,
    vml: Seq<RelView>,
    hf: Seq<Seq<char>>,
    ps: Seq<(Seq<char>, Seq<char>)>,
    k: Seq<char>,
) -> Option<Seq<u8>> {
    match patched_part(listing, vml, hf, ps, k) {
        Some(b) => Some(b),
        None => lookup(all_copies(template, vml), k),
    }
}

/// The drawing relationships of the template's first sheet.
pub open spec fn template_vml(rels_text: Seq<char>) -> Seq<RelView> {
    vml_rels_spec(parse_rels_spec(rels_text))
}

/// The entries of the written package `output` with the header/footer drawings of
/// `template` restored, names in ascending order; `None` when the template's first sheet
/// has no drawing relationship or no `legacyDrawingHF` element, so nothing is to be done.
pub fn patch_hf_entries(template: &[u8], output: &[u8]) -> (r: Result<
    Option<Vec<(String, Vec<u8>)>>,
    String,
>)
    ensures
        zip_lacks_entry(template@, sheet_rels_name()) ==> r matches Ok(None),
        r matches Ok(Some(v)) ==> hf_patched(template@, output@, pairs_view(v@)),
        !zip_lacks_entry(template@, sheet_rels_name()) ==> match zip_text(template@, sheet_rels_name()) {
            None => r is Err,
            Some(rels_t) => {
                let vml = template_vml(rels_t);
                if vml.len() == 0 {
                    r matches Ok(None)
                } else {
                    match zip_text(template@, sheet_name()) {
                        None => r is Err,
                        Some(sheet_t) => {
                            let hf = legacy_hf_spec(sheet_t);
                            if hf.len() == 0 {
                                r matches Ok(None)
                            } else {
                                match archive_listing(output@) {
                                    None => r is Err,
                                    Some(listing) => {
                                        let base = output_base(output@);
                                        if base + vml.len() > u32::MAX {
                                            r is Err
                                        } else {
                                            let ps = rid_pairs(vml, base as nat);
                                            r matches Ok(Some(v)) && strictly_sorted_strs(
                                                names_of(pairs_view(v@)),
                                            ) && forall|k: Seq<char>| #[trigger]
                                                lookup(pairs_view(v@), k) == patched_entry(
                                                    template@,
                                                    listing,
                                                    vml,
                                                    hf,
                                                    ps,
                                                    k,
                                                )
                                        }
                                    },
                                }
                            }
                        },
                    }
                }
            },
        },
{
    let sheet_rels = match read_optional_zip_str(template, "xl/worksheets/_rels/sheet1.xml.rels") {
        Ok(Some(t)) => t,
        Ok(None) => return Ok(None),
        Err(e) => return Err(e),
    };
    let vml = vml_only(&parse_zip_rels(sheet_rels.as_str()));
    if vml.len() == 0 {
        return Ok(None);
    }
    let tmpl_sheet = match read_zip_str(template, "xl/worksheets/sheet1.xml") {
        Ok(t) => t,
        Err(e) => return Err(e),
    };
    let hf = extract_legacy_drawing_hf(tmpl_sheet.as_str());
    if hf.len() == 0 {
        return Ok(None);
    }
    let mut copies = copy_parts(template, &vml);
    let items = match list_zip_entries(output) {
        Ok(items) => items,
        Err(e) => return Err(e),
    };
    let ghost listing = items_view(items@);
    let mut entries = entries_of(items);
    let out_rels = match read_zip_str(output, "xl/worksheets/_rels/sheet1.xml.rels") {
        Ok(t) => t,
        Err(_) => String::new(),
    };
    let base = max_rid_of(&parse_zip_rels(out_rels.as_str()));
    if vml.len() as u64 > 0xFFFF_FFFFu64 - base as u64 {
        return Err(String::from_str("too many drawing relationships to number"));
    }
    let ps = rid_pairs_of(&vml, base);
    let ghost vv = rels_view(vml@);
    let ghost pv = str_pairs(ps@);
    let ghost hv = strs(hf@);
    proof {
        reveal_strlit("xl/worksheets/_rels/sheet1.xml.rels");
        reveal_strlit("xl/worksheets/sheet1.xml");
        reveal_strlit("[Content_Types].xml");
        assert(sheet_rels_name().len() != sheet_name().len());
        assert(sheet_rels_name()[0] != content_types_name()[0]);
        assert(sheet_name()[0] != content_types_name()[0]);
    }
    // The relationships part, created when missing.
    let rels_before = match find_entry(&entries, "xl/worksheets/_rels/sheet1.xml.rels") {
        Some(i) => utf8_lossy(entries[i].1.as_slice()),
        None => String::from_str(
            "<?xml version=\"1.0\" encoding=\"UTF-8\" standalone=\"yes\"?><Relationships xmlns=\"http://schemas.openxmlformats.org/package/2006/relationships\"></Relationships>",
        ),
    };
    let rels_after = patch_rels(rels_before, &vml, &ps);
    upsert(
        &mut entries,
        String::from_str("xl/worksheets/_rels/sheet1.xml.rels"),
        text_bytes(rels_after.as_str()),
    );
    // The sheet, when the written package has one.
    match find_entry(&entries, "xl/worksheets/sheet1.xml") {
        Some(i) => {
            let text = utf8_lossy(entries[i].1.as_slice());
            let patched = patch_sheet(text, &hf, &ps);
            upsert(&mut entries, String::from_str("xl/worksheets/sheet1.xml"), text_bytes(patched.as_str()));
        },
        None => {},
    }
    // The content types, when the written package has them.
    match find_entry(&entries, "[Content_Types].xml") {
        Some(i) => {
            let text = utf8_lossy(entries[i].1.as_slice());
            let patched = patch_types(text);
            upsert(&mut entries, String::from_str("[Content_Types].xml"), text_bytes(patched.as_str()));
        },
        None => {},
    }
    assert forall|k: Seq<char>| #[trigger] lookup(pairs_view(entries@), k) == patched_part(
        listing,
        vv,
        hv,
        pv,
        k,
    ) by {}
    // The template's parts, where the written package has none of that name.
    let ghost cv = pairs_view(copies@);
    let ghost mid = pairs_view(entries@);
    let mut done: usize = 0;
    assert(cv.skip(0) =~= cv);
    assert(cv.len() == copies.len());
    while copies.len() > 0
        invariant
            done <= cv.len(),
            cv.len() <= usize::MAX,
            pairs_view(copies@) == cv.skip(done as int),
            strictly_sorted_strs(names_of(pairs_view(entries@))),
            forall|k: Seq<char>| #[trigger]
                lookup(pairs_view(entries@), k) == match lookup(mid, k) {
                    Some(x) => Some(x),
                    None => lookup(cv.take(done as int), k),
                },
        decreases copies@.len(),
    {
        let ghost oc = copies@;
        assert(pairs_view(oc).len() == oc.len());
        let (name, bytes) = copies.remove(0);
        assert(cv.skip(done as int)[0] == (name@, bytes@));
        assert(cv[done as int] == (name@, bytes@));
        assert(copies@ =~= oc.subrange(1, oc.len() as int));
        assert(pairs_view(copies@) =~= cv.skip(done + 1)) by {
            assert forall|j: int| 0 <= j < copies@.len() implies #[trigger] pairs_view(copies@)[j]
                == cv.skip(done + 1)[j] by {
                assert(copies@[j] == oc[j + 1]);
                assert(pairs_view(oc)[j + 1] == cv.skip(done as int)[j + 1]);
            }
        }
        assert(cv.take(done + 1) =~= cv.take(done as int).push((name@, bytes@)));
        insert_absent(&mut entries, name, bytes);
        assert forall|k: Seq<char>| #[trigger]
            lookup(pairs_view(entries@), k) == match lookup(mid, k) {
                Some(x) => Some(x),
                None => lookup(cv.take(done + 1), k),
            } by {
            lemma_lookup_push(cv.take(done as int), (name@, bytes@), k);
        }
        done += 1;
    }
    assert(cv.take(done as int) =~= cv);
    Ok(Some(entries))
}

/// `v` are the entries of the written package `output` with the header/footer drawings of
/// `template` restored, names in ascending order.
pub open spec fn hf_patched(template: Seq<u8>, output: Seq<u8>, v: Seq<(Seq<char>, Seq<u8>)>) -> bool {
    !zip_lacks_entry(template, sheet_rels_name()) && match zip_text(template, sheet_rels_name()) {
        None => false,
        Some(rels_t) => {
            let vml = template_vml(rels_t);
            vml.len() > 0 && match zip_text(template, sheet_name()) {
                None => false,
                Some(sheet_t) => {
                    let hf = legacy_hf_spec(sheet_t);
                    hf.len() > 0 && match archive_listing(output) {
                        None => false,
                        Some(listing) => {
                            let base = output_base(output);
                            &&& base + vml.len() <= u32::MAX
                            &&& strictly_sorted_strs(names_of(v))
                            &&& forall|k: Seq<char>| #[trigger]
                                lookup(v, k) == patched_entry(
                                    template,
                                    listing,
                                    vml,
                                    hf,
                                    rid_pairs(vml, base as nat),
                                    k,
                                )
                        },
                    }
                },
            }
        },
    }
}

/// `archive` is a zip archive of the restored entries of `output`: read back, it lists them,
/// where no entry name is a directory name.
pub open spec fn restored_archive(template: Seq<u8>, output: Seq<u8>, archive: Seq<u8>) -> bool {
    exists|v: Seq<(Seq<char>, Seq<u8>)>|
        #[trigger] hf_patched(template, output, v) && (no_dir_names(v) ==> archive_listing(archive)
            == Some(written_listing(v)))
}

/// Whether restoring the drawings fails: a template part cannot be read, the written package
/// cannot be listed, or the new relationship numbers pass `u32::MAX`.
pub open spec fn hf_patch_fails(template: Seq<u8>, output: Seq<u8>) -> bool {
    !zip_lacks_entry(template, sheet_rels_name()) && match zip_text(template, sheet_rels_name()) {
        None => true,
        Some(rels_t) => {
            let vml = template_vml(rels_t);
            vml.len() > 0 && match zip_text(template, sheet_name()) {
                None => true,
                Some(sheet_t) => legacy_hf_spec(sheet_t).len() > 0 && (archive_listing(output) is None
                    || output_base(output) + vml.len() > u32::MAX),
            }
        },
    }
}

/// Whether the template has no drawings to restore: no relationships part for its first
/// sheet, no drawing relationship in it, or no header/footer element in the sheet.
pub open spec fn hf_patch_unneeded(template: Seq<u8>) -> bool {
    zip_lacks_entry(template, sheet_rels_name()) || match zip_text(template, sheet_rels_name()) {
        None => false,
        Some(rels_t) => template_vml(rels_t).len() == 0 || match zip_text(template, sheet_name()) {
            None => false,
            Some(sheet_t) => legacy_hf_spec(sheet_t).len() == 0,
        },
    }
}

/// The written package `output`, as zip bytes, with the header/footer drawings of
/// `template` restored (the entries [`patch_hf_entries`] gives, in that order); `None` when
/// the template has none to restore.
pub fn restore_hf_drawing(template: &[u8], output: &[u8]) -> (r: Result<Option<Vec<u8>>, String>)
    ensures
        hf_patch_fails(template@, output@) ==> r is Err,
        hf_patch_unneeded(template@) ==> r matches Ok(None),
        !hf_patch_fails(template@, output@) && !hf_patch_unneeded(template@) ==> !(r matches Ok(
            None,
        )),
        r matches Ok(Some(bytes)) ==> restored_archive(template@, output@, bytes@),
{
    match patch_hf_entries(template, output) {
        Err(e) => Err(e),
        Ok(None) => Ok(None),
        Ok(Some(entries)) => match write_zip(&entries) {
            Ok(bytes) => {
                assert(hf_patched(template@, output@, pairs_view(entries@)));
                Ok(Some(bytes))
            },
            Err(e) => Err(e),
        },
    }
}

proof fn lemma_digit_char(d: nat)
    requires
        d < 10,
    ensures
        is_digit(digit_char(d)),
        digit_value(digit_char(d)) == d,
{
}

/// The decimal text of `n` is a non-empty run of digits that reads back as `n`.
proof fn lemma_decimal_text_value(n: nat)
    ensures
        decimal_text(n).len() > 0,
        all_digits(decimal_text(n)),
        decimal_value(decimal_text(n)) == n,
    decreases n,
{
    if n < 10 {
        lemma_digit_char(n);
        let t = decimal_text(n);
        assert(t.drop_last() =~= Seq::<char>::empty());
        assert(decimal_value(t.drop_last()) == 0);
        assert(t.last() == digit_char(n));
    } else {
        lemma_decimal_text_value(n / 10);
        lemma_digit_char(n % 10);
        let t = decimal_text(n);
        assert(t.drop_last() =~= decimal_text(n / 10));
        assert(t.last() == digit_char(n % 10));
        assert(decimal_value(t) == 10 * decimal_value(decimal_text(n / 10)) + digit_value(digit_char(n % 10)));
        assert(10 * (n / 10) + n % 10 == n);
        assert forall|i: int| 0 <= i < t.len() implies is_digit(#[trigger] t[i]) by {
            if i < t.len() - 1 {
                assert(t[i] == decimal_text(n / 10)[i]);
            }
        }
    }
}

/// The id `rId<n>` has the number `n`.
proof fn lemma_new_rid_number(n: nat)
    requires
        n <= u32::MAX,
    ensures
        rid_number(new_rid(n)) == Some(n as u32),
{
    lemma_decimal_text_value(n);
    let id = new_rid(n);
    assert(rid_prefix().is_prefix_of(id)) by {
        assert(id.subrange(0, 3) =~= rid_prefix());
    }
    assert(id.skip(3) =~= decimal_text(n));
    assert(is_digit(decimal_text(n)[0]));
    assert(without_plus(decimal_text(n)) == decimal_text(n));
}

/// No numbered id of `rels` has a number above [`max_rid`].
proof fn lemma_max_rid_bound(rels: Seq<RelView>, q: int)
    requires
        0 <= q < rels.len(),
    ensures
        rid_number(rels[q].0) matches Some(m) ==> m <= max_rid(rels),
    decreases rels.len(),
{
    if q < rels.len() - 1 {
        lemma_max_rid_bound(rels.drop_last(), q);
        assert(rels.drop_last()[q] == rels[q]);
    }
}

/// Every new id of [`rid_pairs`] is numbered above `base` and at most `base` plus the number
/// of drawing relationships.
proof fn lemma_rid_pairs_numbers(vml: Seq<RelView>, base: nat)
    requires
        base + vml.len() <= u32::MAX,
    ensures
        forall|j: int| 0 <= j < rid_pairs(vml, base).len() ==> (rid_number(
            #[trigger] rid_pairs(vml, base)[j].1,
        ) matches Some(n) && base < n <= base + vml.len()),
    decreases vml.len(),
{
    if vml.len() > 0 {
        let prev = rid_pairs(vml.drop_last(), base);
        lemma_rid_pairs_numbers(vml.drop_last(), base);
        lemma_new_rid_number(base + vml.len());
        let ps = rid_pairs(vml, base);
        assert forall|j: int| 0 <= j < ps.len() implies (rid_number(#[trigger] ps[j].1) matches Some(n)
            && base < n <= base + vml.len()) by {
            if has_key(prev, vml.last().0) {
                let c = choose|c: int| 0 <= c < prev.len() && (#[trigger] prev[c]).0 == vml.last().0;
                if j != c {
                    assert(ps[j] == prev[j]);
                }
            } else {
                if j < prev.len() {
                    assert(ps[j] == prev[j]);
                }
            }
        }
    }
}

/// The new relationship ids never clash with an id the written sheet's relationships part
/// already has: each is numbered above every numbered id there.
pub proof fn lemma_new_rids_are_fresh(existing: Seq<RelView>, vml: Seq<RelView>)
    requires
        max_rid(existing) + vml.len() <= u32::MAX,
    ensures
        forall|j: int, q: int|
            0 <= j < rid_pairs(vml, max_rid(existing) as nat).len() && 0 <= q < existing.len()
                ==> #[trigger] rid_pairs(vml, max_rid(existing) as nat)[j].1 != #[trigger] existing[q].0,
{
    let base = max_rid(existing) as nat;
    lemma_rid_pairs_numbers(vml, base);
    assert forall|j: int, q: int|
        0 <= j < rid_pairs(vml, base).len() && 0 <= q < existing.len() implies #[trigger] rid_pairs(
        vml,
        base,
    )[j].1 != #[trigger] existing[q].0 by {
        lemma_max_rid_bound(existing, q);
    }
}

} // verus!
