//! Text scanning of the XML parts of an `.xlsx` package: relationship entries, attributes,
//! header/footer drawing elements, and paths inside the package.

use vstd::prelude::*;
use crate::text::{chars_of, join, occurs_at, string_of, strs};

verus! {

/// The position of the first occurrence of `pat` in `s`, as `str::find` gives it (counted in
/// characters).
pub open spec fn find_seq(s: Seq<char>, pat: Seq<char>) -> Option<int>
    decreases s.len(),
{
    if pat.is_prefix_of(s) {
        Some(0)
    } else if s.len() == 0 {
        None
    } else {
        match find_seq(s.drop_first(), pat) {
            Some(i) => Some(i + 1),
            None => None,
        }
    }
}

/// What `find_seq` finds is an occurrence of `pat`.
pub proof fn lemma_find_seq(s: Seq<char>, pat: Seq<char>)
    ensures
        find_seq(s, pat) matches Some(i) ==> 0 <= i && i + pat.len() <= s.len() && s.subrange(
            i,
            i + pat.len(),
        ) == pat,
    decreases s.len(),
{
    if !pat.is_prefix_of(s) && s.len() > 0 {
        lemma_find_seq(s.drop_first(), pat);
        if let Some(i) = find_seq(s.drop_first(), pat) {
            assert(s.subrange(i + 1, i + 1 + pat.len()) =~= s.drop_first().subrange(i, i + pat.len()));
        }
    }
}

/// The position of the first occurrence of `pat` in `s` at or after `start`.
pub fn find_from(s: &Vec<char>, start: usize, pat: &Vec<char>) -> (r: Option<usize>)
    requires
        start <= s.len(),
    ensures
        match find_seq(s@.skip(start as int), pat@) {
            Some(i) => r == Some((i + start) as usize),
            None => r is None,
        },
{
    let mut i: usize = start;
    while i < s.len() && !occurs_at(s, pat, i)
        invariant
            start <= i <= s.len(),
            find_seq(s@.skip(start as int), pat@) == match find_seq(s@.skip(i as int), pat@) {
                Some(k) => Some(k + (i - start)),
                None => None,
            },
        decreases s.len() - i,
    {
        assert(s@.skip(i as int).drop_first() =~= s@.skip(i + 1));
        i += 1;
    }
    if i < s.len() {
        Some(i)
    } else {
        if occurs_at(s, pat, i) {
            Some(i)
        } else {
            assert(s@.skip(i as int).len() == 0);
            None
        }
    }
}

/// The position of the last `c` in `s`, as `str::rfind` gives it.
pub open spec fn rfind_char(s: Seq<char>, c: char) -> Option<int>
    decreases s.len(),
{
    if s.len() == 0 {
        None
    } else if s.last() == c {
        Some(s.len() - 1)
    } else {
        rfind_char(s.drop_last(), c)
    }
}

proof fn lemma_rfind_char(s: Seq<char>, c: char)
    ensures
        rfind_char(s, c) matches Some(i) ==> 0 <= i < s.len() && s[i] == c,
    decreases s.len(),
{
    if s.len() > 0 && s.last() != c {
        lemma_rfind_char(s.drop_last(), c);
    }
}

/// The position of the last `c` in `s`.
pub fn rfind_char_in(s: &Vec<char>, c: char) -> (r: Option<usize>)
    ensures
        match rfind_char(s@, c) {
            Some(i) => r == Some(i as usize),
            None => r is None,
        },
{
    let mut i: usize = s.len();
    assert(s@.take(s.len() as int) =~= s@);
    while i > 0 && s[i - 1] != c
        invariant
            i <= s.len(),
            rfind_char(s@, c) == rfind_char(s@.take(i as int), c),
        decreases i,
    {
        assert(s@.take(i as int).drop_last() =~= s@.take(i - 1));
        i -= 1;
    }
    assert(s@.take(s.len() as int) =~= s@);
    if i == 0 {
        None
    } else {
        Some(i - 1)
    }
}

/// The characters of `s` from `a` to `b`.
pub fn slice_chars(s: &Vec<char>, a: usize, b: usize) -> (r: Vec<char>)
    requires
        a <= b <= s.len(),
    ensures
        r@ == s@.subrange(a as int, b as int),
{
    let mut r: Vec<char> = Vec::new();
    let mut k: usize = a;
    while k < b
        invariant
            a <= k <= b <= s.len(),
            r@ == s@.subrange(a as int, k as int),
        decreases b - k,
    {
        r.push(s[k]);
        k += 1;
        assert(r@ =~= s@.subrange(a as int, k as int));
    }
    r
}

/// `a` followed by `b`.
pub fn append_chars(a: &mut Vec<char>, b: &Vec<char>)
    ensures
        final(a)@ == old(a)@ + b@,
{
    let mut k: usize = 0;
    while k < b.len()
        invariant
            k <= b.len(),
            a@ == old(a)@ + b@.take(k as int),
        decreases b.len() - k,
    {
        a.push(b[k]);
        k += 1;
        assert(a@ =~= old(a)@ + b@.take(k as int));
    }
    assert(b@.take(b.len() as int) =~= b@);
}

/// The value of attribute `attr` in `xml`: the text between `attr="` and the next `"`, or
/// empty when there is none.
pub open spec fn xml_attr_spec(xml: Seq<char>, attr: Seq<char>) -> Seq<char> {
    let pat = attr + seq!['=', '"'];
    match find_seq(xml, pat) {
        None => Seq::empty(),
        Some(i) => {
            let after = xml.skip(i + pat.len());
            match find_seq(after, seq!['"']) {
                Some(e) => after.take(e),
                None => Seq::empty(),
            }
        },
    }
}

/// The value of attribute `attr` in `xml`.
pub fn xml_attr_chars(xml: &Vec<char>, attr: &str) -> (r: Vec<char>)
    ensures
        r@ == xml_attr_spec(xml@, attr@),
{
    let mut pat = chars_of(attr);
    pat.push('=');
    pat.push('"');
    assert(pat@ =~= attr@ + seq!['=', '"']);
    proof {
        lemma_find_seq(xml@, pat@);
    }
    match find_from(xml, 0, &pat) {
        None => {
            assert(xml@.skip(0) =~= xml@);
            Vec::new()
        },
        Some(i) => {
            assert(xml@.skip(0) =~= xml@);
            proof {
                lemma_find_seq(xml@, pat@);
            }
            assert(i + pat@.len() <= xml@.len());
            let start = i + pat.len();
            let quote: Vec<char> = vec!['"'];
            assert(quote@ =~= seq!['"']);
            proof {
                lemma_find_seq(xml@.skip(start as int), quote@);
            }
            match find_from(xml, start, &quote) {
                Some(e) => {
                    let r = slice_chars(xml, start, e);
                    assert(r@ =~= xml@.skip(start as int).take(e - start));
                    r
                },
                None => Vec::new(),
            }
        },
    }
}

/// The end `/>` of an empty element.
pub open spec fn slash_close() -> Seq<char> {
    seq!['/', '>']
}

/// The start of a `legacyDrawingHF` element.
pub open spec fn hf_open() -> Seq<char> {
    seq!['<', 'l', 'e', 'g', 'a', 'c', 'y', 'D', 'r', 'a', 'w', 'i', 'n', 'g', 'H', 'F']
}

/// The start of a `Relationship` element.
pub open spec fn rel_open() -> Seq<char> {
    seq!['<', 'R', 'e', 'l', 'a', 't', 'i', 'o', 'n', 's', 'h', 'i', 'p']
}

/// The closing tag of a `Relationship` element.
pub open spec fn rel_close() -> Seq<char> {
    seq!['<', '/', 'R', 'e', 'l', 'a', 't', 'i', 'o', 'n', 's', 'h', 'i', 'p', '>']
}

/// The `<legacyDrawingHF .../>` elements of a sheet, in order.
pub open spec fn legacy_hf_spec(s: Seq<char>) -> Seq<Seq<char>>
    decreases s.len(),
{
    match find_seq(s, hf_open()) {
        None => Seq::empty(),
        Some(st) => {
            let rest = s.skip(st);
            match find_seq(rest, slash_close()) {
                None => Seq::empty(),
                Some(e) => {
                    proof {
                        lemma_find_seq(s, hf_open());
                        lemma_find_seq(rest, slash_close());
                    }
                    seq![rest.take(e + 2)] + legacy_hf_spec(rest.skip(e + 2))
                },
            }
        },
    }
}

/// The `<legacyDrawingHF .../>` elements of a sheet.
pub fn extract_legacy_drawing_hf_chars(sheet_xml: &Vec<char>) -> (r: Vec<Vec<char>>)
    ensures
        r@.map_values(|v: Vec<char>| v@) == legacy_hf_spec(sheet_xml@),
{
    let open = chars_of("<legacyDrawingHF");
    let close = chars_of("/>");
    proof {
        reveal_strlit("<legacyDrawingHF");
        reveal_strlit("/>");
        assert(open@ =~= hf_open());
        assert(close@ =~= slash_close());
    }
    let mut results: Vec<Vec<char>> = Vec::new();
    let mut pos: usize = 0;
    assert(sheet_xml@.skip(0) =~= sheet_xml@);
    loop
        invariant
            pos <= sheet_xml.len(),
            open@ == hf_open(),
            close@ == slash_close(),
            legacy_hf_spec(sheet_xml@) == results@.map_values(|v: Vec<char>| v@) + legacy_hf_spec(
                sheet_xml@.skip(pos as int),
            ),
        decreases sheet_xml.len() - pos,
    {
        let ghost s = sheet_xml@.skip(pos as int);
        proof {
            lemma_find_seq(s, hf_open());
        }
        let start = match find_from(sheet_xml, pos, &open) {
            None => {
                assert(results@.map_values(|v: Vec<char>| v@) + Seq::<Seq<char>>::empty()
                    =~= results@.map_values(|v: Vec<char>| v@));
                return results;
            },
            Some(st) => st,
        };
        let ghost rest = s.skip(start - pos);
        assert(rest =~= sheet_xml@.skip(start as int));
        proof {
            lemma_find_seq(rest, slash_close());
        }
        match find_from(sheet_xml, start, &close) {
            None => {
                assert(results@.map_values(|v: Vec<char>| v@) + Seq::<Seq<char>>::empty()
                    =~= results@.map_values(|v: Vec<char>| v@));
                return results;
            },
            Some(end) => {
                let elem = slice_chars(sheet_xml, start, end + 2);
                let ghost before = results@.map_values(|v: Vec<char>| v@);
                assert(elem@ =~= rest.take(end + 2 - start));
                assert(rest.skip(end + 2 - start) =~= sheet_xml@.skip(end + 2));
                results.push(elem);
                assert(results@.map_values(|v: Vec<char>| v@) =~= before.push(elem@));
                assert(before + (seq![elem@] + legacy_hf_spec(sheet_xml@.skip(end + 2)))
                    =~= before.push(elem@) + legacy_hf_spec(sheet_xml@.skip(end + 2)));
                pos = end + 2;
            },
        }
    }
}

/// A relationship entry: its id, type and target.
pub struct ZipRel {
    pub id: String,
    pub rel_type: String,
    pub target: String,
}

/// The view of a relationship: id, type, target.
pub open spec fn rel_view(r: ZipRel) -> (Seq<char>, Seq<char>, Seq<char>) {
    (r.id@, r.rel_type@, r.target@)
}

/// The views of relationships, in order.
pub open spec fn rels_view(rs: Seq<ZipRel>) -> Seq<(Seq<char>, Seq<char>, Seq<char>)> {
    rs.map_values(|r: ZipRel| rel_view(r))
}

/// The end of the element starting `rest`: after its `/>`, else after its
/// `</Relationship>`, else the end of the text.
pub open spec fn rel_end(rest: Seq<char>) -> int {
    match find_seq(rest, slash_close()) {
        Some(i) => i + 2,
        None => match find_seq(rest, rel_close()) {
            Some(i) => i + 15,
            None => rest.len() as int,
        },
    }
}

/// The relationship entries of a `.rels` part with a non-empty id and type, in order.
pub open spec fn parse_rels_spec(s: Seq<char>) -> Seq<(Seq<char>, Seq<char>, Seq<char>)>
    decreases s.len(),
{
    match find_seq(s, rel_open()) {
        None => Seq::empty(),
        Some(st) => {
            let rest = s.skip(st);
            let end = rel_end(rest);
            let cut = if end < rest.len() {
                end
            } else {
                rest.len() as int
            };
            let elem = rest.take(end);
            let id = xml_attr_spec(elem, "Id"@);
            let ty = xml_attr_spec(elem, "Type"@);
            let target = xml_attr_spec(elem, "Target"@);
            proof {
                lemma_rel_end(s, st);
            }
            let tail = parse_rels_spec(rest.skip(cut));
            if id.len() > 0 && ty.len() > 0 {
                seq![(id, ty, target)] + tail
            } else {
                tail
            }
        },
    }
}

/// An element found at `st` ends after at least one character, and within the text.
pub proof fn lemma_rel_end(s: Seq<char>, st: int)
    requires
        find_seq(s, rel_open()) == Some(st),
    ensures
        0 <= st <= s.len(),
        1 <= rel_end(s.skip(st)) <= s.skip(st).len(),
{
    lemma_find_seq(s, rel_open());
    let rest = s.skip(st);
    assert(rest[0] == '<') by {
        assert(s.subrange(st, st + 13)[0] == rest[0]);
    }
    assert(rest[1] == 'R') by {
        assert(s.subrange(st, st + 13)[1] == rest[1]);
    }
    lemma_find_seq(rest, slash_close());
    lemma_find_seq(rest, rel_close());
    if let Some(i) = find_seq(rest, slash_close()) {
        if i == 0 {
            assert(rest.subrange(0, 2)[0] == '/');
        }
    } else if let Some(i) = find_seq(rest, rel_close()) {
        if i == 0 {
            assert(rest.subrange(0, 15)[1] == '/');
        }
    }
}

/// The end of the element starting at `start`, counted from `start`.
fn rel_end_at(xml: &Vec<char>, start: usize, close: &Vec<char>, end_tag: &Vec<char>) -> (end: usize)
    requires
        start <= xml.len(),
        close@ == slash_close(),
        end_tag@ == rel_close(),
    ensures
        end == rel_end(xml@.skip(start as int)),
{
    proof {
        lemma_find_seq(xml@.skip(start as int), slash_close());
        lemma_find_seq(xml@.skip(start as int), rel_close());
    }
    match find_from(xml, start, close) {
        Some(i) => i - start + 2,
        None => match find_from(xml, start, end_tag) {
            Some(i) => i - start + 15,
            None => xml.len() - start,
        },
    }
}

/// The relationship an element describes, when it has an id and a type.
fn rel_of_element(elem: &Vec<char>) -> (r: Option<ZipRel>)
    ensures
        ({
            let id = xml_attr_spec(elem@, "Id"@);
            let ty = xml_attr_spec(elem@, "Type"@);
            let target = xml_attr_spec(elem@, "Target"@);
            if id.len() > 0 && ty.len() > 0 {
                r matches Some(rel) && rel_view(rel) == (id, ty, target)
            } else {
                r is None
            }
        }),
{
    let id = xml_attr_chars(elem, "Id");
    let rel_type = xml_attr_chars(elem, "Type");
    let target = xml_attr_chars(elem, "Target");
    if id.len() > 0 && rel_type.len() > 0 {
        Some(ZipRel { id: string_of(&id), rel_type: string_of(&rel_type), target: string_of(&target) })
    } else {
        None
    }
}

/// The relationship entries of a `.rels` part, in order; entries without an id or a type are
/// left out.
pub fn parse_zip_rels_chars(xml: &Vec<char>) -> (r: Vec<ZipRel>)
    ensures
        rels_view(r@) == parse_rels_spec(xml@),
{
    let open = chars_of("<Relationship");
    let close = chars_of("/>");
    let end_tag = chars_of("</Relationship>");
    proof {
        reveal_strlit("<Relationship");
        reveal_strlit("/>");
        reveal_strlit("</Relationship>");
        assert(open@ =~= rel_open());
        assert(close@ =~= slash_close());
        assert(end_tag@ =~= rel_close());
    }
    let mut rels: Vec<ZipRel> = Vec::new();
    let mut pos: usize = 0;
    assert(xml@.skip(0) =~= xml@);
    loop
        invariant
            pos <= xml.len(),
            open@ == rel_open(),
            close@ == slash_close(),
            end_tag@ == rel_close(),
            parse_rels_spec(xml@) == rels_view(rels@) + parse_rels_spec(xml@.skip(pos as int)),
        decreases xml.len() - pos,
    {
        let ghost s = xml@.skip(pos as int);
        proof {
            lemma_find_seq(s, rel_open());
        }
        let start = match find_from(xml, pos, &open) {
            None => {
                assert(rels_view(rels@) + Seq::<(Seq<char>, Seq<char>, Seq<char>)>::empty()
                    =~= rels_view(rels@));
                return rels;
            },
            Some(st) => st,
        };
        let ghost rest = s.skip(start - pos);
        assert(rest =~= xml@.skip(start as int));
        proof {
            lemma_rel_end(s, start - pos);
        }
        let end = rel_end_at(xml, start, &close, &end_tag);
        let elem = slice_chars(xml, start, start + end);
        assert(elem@ =~= rest.take(end as int));
        let found = rel_of_element(&elem);
        let ghost before = rels_view(rels@);
        let ghost id = xml_attr_spec(elem@, "Id"@);
        let ghost ty = xml_attr_spec(elem@, "Type"@);
        let ghost target = xml_attr_spec(elem@, "Target"@);
        let keep = found.is_some();
        match found {
            Some(rel) => {
                rels.push(rel);
                assert(rels_view(rels@) =~= before.push((id, ty, target)));
            },
            None => {},
        }
        let cut = if end < xml.len() - start {
            end
        } else {
            xml.len() - start
        };
        assert(rest.skip(cut as int) =~= xml@.skip(start + cut));
        if keep {
            assert(before + (seq![(id, ty, target)] + parse_rels_spec(xml@.skip(start + cut)))
                =~= rels_view(rels@) + parse_rels_spec(xml@.skip(start + cut)));
        }
        pos = start + cut;
    }
}

/// `s` split at every `c`, as `str::split` gives it.
pub open spec fn split_char(s: Seq<char>, c: char) -> Seq<Seq<char>>
    decreases s.len(),
{
    match find_seq(s, seq![c]) {
        None => seq![s],
        Some(i) => {
            proof {
                lemma_find_seq(s, seq![c]);
            }
            seq![s.take(i)] + split_char(s.skip(i + 1), c)
        },
    }
}

/// `s` without its trailing `c`s, as `str::trim_end_matches` gives it.
pub open spec fn trim_end_char(s: Seq<char>, c: char) -> Seq<char>
    decreases s.len(),
{
    if s.len() > 0 && s.last() == c {
        trim_end_char(s.drop_last(), c)
    } else {
        s
    }
}

/// The path segments after following `segs`: `..` drops the last segment, any other segment
/// is appended.
pub open spec fn apply_segments(parts: Seq<Seq<char>>, segs: Seq<Seq<char>>) -> Seq<Seq<char>>
    decreases segs.len(),
{
    if segs.len() == 0 {
        parts
    } else {
        let next = if segs[0] == seq!['.', '.'] {
            if parts.len() > 0 {
                parts.drop_last()
            } else {
                parts
            }
        } else {
            parts.push(segs[0])
        };
        apply_segments(next, segs.drop_first())
    }
}

/// The package path of relationship target `target` seen from directory `base_dir`.
pub open spec fn resolve_rel_spec(base_dir: Seq<char>, target: Seq<char>) -> Seq<char> {
    join(
        apply_segments(split_char(trim_end_char(base_dir, '/'), '/'), split_char(target, '/')),
        seq!['/'],
    )
}

/// `s` split at every `c`.
fn split_at_char(s: &Vec<char>, c: char) -> (r: Vec<Vec<char>>)
    ensures
        r@.map_values(|v: Vec<char>| v@) == split_char(s@, c),
{
    let sep: Vec<char> = vec![c];
    assert(sep@ =~= seq![c]);
    let mut parts: Vec<Vec<char>> = Vec::new();
    let mut pos: usize = 0;
    assert(s@.skip(0) =~= s@);
    loop
        invariant
            pos <= s.len(),
            sep@ == seq![c],
            split_char(s@, c) == parts@.map_values(|v: Vec<char>| v@) + split_char(
                s@.skip(pos as int),
                c,
            ),
        decreases s.len() - pos,
    {
        let ghost t = s@.skip(pos as int);
        let ghost before = parts@.map_values(|v: Vec<char>| v@);
        proof {
            lemma_find_seq(t, seq![c]);
        }
        match find_from(s, pos, &sep) {
            None => {
                let last = slice_chars(s, pos, s.len());
                assert(last@ =~= t);
                parts.push(last);
                assert(parts@.map_values(|v: Vec<char>| v@) =~= before.push(t));
                assert(before + seq![t] =~= before.push(t));
                return parts;
            },
            Some(i) => {
                let piece = slice_chars(s, pos, i);
                assert(piece@ =~= t.take(i - pos));
                assert(t.skip(i - pos + 1) =~= s@.skip(i + 1));
                parts.push(piece);
                assert(parts@.map_values(|v: Vec<char>| v@) =~= before.push(piece@));
                assert(before + (seq![piece@] + split_char(s@.skip(i + 1), c)) =~= before.push(
                    piece@,
                ) + split_char(s@.skip(i + 1), c));
                pos = i + 1;
            },
        }
    }
}

/// The package path of relationship target `target` seen from directory `base_dir`.
pub fn resolve_zip_rel(base_dir: &str, target: &str) -> (r: String)
    ensures
        r@ == resolve_rel_spec(base_dir@, target@),
{
    let b = chars_of(base_dir);
    let mut n: usize = b.len();
    assert(b@.take(b.len() as int) =~= b@);
    while n > 0 && b[n - 1] == '/'
        invariant
            n <= b.len(),
            trim_end_char(b@, '/') == trim_end_char(b@.take(n as int), '/'),
        decreases n,
    {
        assert(b@.take(n as int).drop_last() =~= b@.take(n - 1));
        n -= 1;
    }
    assert(b@.take(b.len() as int) =~= b@);
    let trimmed = slice_chars(&b, 0, n);
    assert(trimmed@ =~= b@.take(n as int));
    let base_parts = split_at_char(&trimmed, '/');
    let t = chars_of(target);
    let segs = split_at_char(&t, '/');
    let ghost sv = segs@.map_values(|v: Vec<char>| v@);
    let mut parts: Vec<String> = Vec::new();
    let mut k: usize = 0;
    let ghost bv = base_parts@.map_values(|v: Vec<char>| v@);
    while k < base_parts.len()
        invariant
            k <= base_parts.len(),
            bv == base_parts@.map_values(|v: Vec<char>| v@),
            parts@.len() == k,
            forall|q: int| 0 <= q < k ==> (#[trigger] parts@[q])@ == bv[q],
        decreases base_parts.len() - k,
    {
        parts.push(string_of(&base_parts[k]));
        k += 1;
    }
    assert(strs(parts@) =~= bv);
    let mut j: usize = 0;
    assert(sv.skip(0) =~= sv);
    while j < segs.len()
        invariant
            j <= segs.len(),
            sv == segs@.map_values(|v: Vec<char>| v@),
            resolve_rel_spec(base_dir@, target@) == join(
                apply_segments(strs(parts@), sv.skip(j as int)),
                seq!['/'],
            ),
        decreases segs.len() - j,
    {
        assert(sv.skip(j as int).drop_first() =~= sv.skip(j + 1));
        assert(sv.skip(j as int)[0] == segs@[j as int]@);
        let seg = &segs[j];
        let is_up = seg.len() == 2 && seg[0] == '.' && seg[1] == '.';
        assert(is_up == (seg@ == seq!['.', '.'])) by {
            if seg@ == seq!['.', '.'] {
                assert(seg@[0] == '.' && seg@[1] == '.');
            }
            if is_up {
                assert(seg@ =~= seq!['.', '.']);
            }
        }
        let ghost before = strs(parts@);
        if is_up {
            if parts.len() > 0 {
                parts.pop();
                assert(strs(parts@) =~= before.drop_last());
            }
        } else {
            parts.push(string_of(seg));
            assert(strs(parts@) =~= before.push(seg@));
        }
        j += 1;
    }
    assert(sv.skip(j as int) =~= Seq::<Seq<char>>::empty());
    let slash = "/";
    proof {
        reveal_strlit("/");
        assert(slash@ =~= seq!['/']);
    }
    crate::text::join_strs(&parts, slash)
}

/// The path of the relationships part of package part `path`.
pub open spec fn rels_path_spec(path: Seq<char>) -> Seq<char> {
    match rfind_char(path, '/') {
        Some(i) => path.take(i) + "/_rels/"@ + path.skip(i + 1) + ".rels"@,
        None => "_rels/"@ + path + ".rels"@,
    }
}

/// The path of the relationships part of package part `path`.
pub fn make_rels_path(path: &str) -> (r: String)
    ensures
        r@ == rels_path_spec(path@),
{
    let p = chars_of(path);
    proof {
        lemma_rfind_char(p@, '/');
    }
    match rfind_char_in(&p, '/') {
        Some(i) => {
            let head = string_of(&slice_chars(&p, 0, i));
            let tail = string_of(&slice_chars(&p, i + 1, p.len()));
            assert(p@.subrange(0, i as int) =~= p@.take(i as int));
            assert(p@.subrange(i + 1, p@.len() as int) =~= p@.skip(i + 1));
            let a = crate::text::concat(head.as_str(), "/_rels/");
            let b = crate::text::concat(a.as_str(), tail.as_str());
            crate::text::concat(b.as_str(), ".rels")
        },
        None => {
            let a = crate::text::concat("_rels/", path);
            crate::text::concat(a.as_str(), ".rels")
        },
    }
}

/// The directory of package part `path`, with a trailing `/`; empty at the top.
pub open spec fn parent_dir_spec(path: Seq<char>) -> Seq<char> {
    match rfind_char(path, '/') {
        Some(i) => path.take(i) + seq!['/'],
        None => Seq::empty(),
    }
}

/// The directory of package part `path`.
pub fn parent_dir(path: &str) -> (r: String)
    ensures
        r@ == parent_dir_spec(path@),
{
    let p = chars_of(path);
    proof {
        lemma_rfind_char(p@, '/');
    }
    match rfind_char_in(&p, '/') {
        Some(i) => {
            let mut head = slice_chars(&p, 0, i);
            head.push('/');
            assert(head@ =~= p@.take(i as int) + seq!['/']);
            string_of(&head)
        },
        None => String::new(),
    }
}

/// The value of attribute `attr` in `xml`: the text between `attr="` and the next `"`, or
/// empty when there is none.
pub fn xml_attr(xml: &str, attr: &str) -> (r: String)
    ensures
        r@ == xml_attr_spec(xml@, attr@),
{
    string_of(&xml_attr_chars(&chars_of(xml), attr))
}

/// The relationship entries of a `.rels` part, in order; entries without an id or a type are
/// left out.
pub fn parse_zip_rels(xml: &str) -> (r: Vec<ZipRel>)
    ensures
        rels_view(r@) == parse_rels_spec(xml@),
{
    parse_zip_rels_chars(&chars_of(xml))
}

/// The `<legacyDrawingHF .../>` elements of a sheet, in order.
pub fn extract_legacy_drawing_hf(sheet_xml: &str) -> (r: Vec<String>)
    ensures
        strs(r@) == legacy_hf_spec(sheet_xml@),
{
    let elems = extract_legacy_drawing_hf_chars(&chars_of(sheet_xml));
    let ghost ev = elems@.map_values(|v: Vec<char>| v@);
    let mut r: Vec<String> = Vec::new();
    let mut i: usize = 0;
    while i < elems.len()
        invariant
            i <= elems@.len(),
            ev == elems@.map_values(|v: Vec<char>| v@),
            r@.len() == i,
            forall|k: int| 0 <= k < i ==> (#[trigger] r@[k])@ == ev[k],
        decreases elems@.len() - i,
    {
        r.push(string_of(&elems[i]));
        i += 1;
    }
    assert(strs(r@) =~= ev);
    r
}

} // verus!
