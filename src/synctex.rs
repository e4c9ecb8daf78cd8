//! The synchronization index and the searches built on it.
//!
//! The engine writes a gzip-compressed text file. Its lines are read in
//! order: `Input:<id>:<path>` registers a source file, `{<page>` makes
//! `<page>` the current page for what follows, and a record line
//! `<kind><file id>,<line>:<h>,<v>...` places a source line at the
//! vertical position `v`, in scaled points, on the current page. Page
//! numbers are those of the file (the first page is 1; records before any
//! page marker stand on page 0). Everything else is ignored.
use crate::text::{
    chars_of, contains_chars, contains_exec, find_chars, find_from, lines_of, parse_i64,
    parse_i64_spec, parse_usize, parse_usize_spec, slice_chars, split_lines, starts_with, views,
};
use std::io::Read;
use vstd::arithmetic::div_mod::{lemma_fundamental_div_mod, lemma_fundamental_div_mod_converse};
use vstd::prelude::*;

verus! {

/// One record of the index: where a source line stands on a page.
#[derive(Clone, Copy, Debug)]
pub struct SyncRecord {
    /// The record's kind, its first character (`h`, `v`, `x`, `k`, `g`, ...).
    pub kind: char,
    pub file_id: usize,
    pub line: usize,
    /// The page number current where the record stands.
    pub page: usize,
    /// The vertical position, in scaled points.
    pub v: i64,
}

/// A registered source file.
pub struct SyncInput {
    pub id: usize,
    pub path: Vec<char>,
}

/// The parsed synchronization file: its source files in order of
/// registration, and its records in the order of the file.
pub struct SyncIndex {
    pub inputs: Vec<SyncInput>,
    pub records: Vec<SyncRecord>,
}

/// The index as plain values.
pub struct SyncModel {
    pub inputs: Seq<(usize, Seq<char>)>,
    pub records: Seq<SyncRecord>,
}

impl View for SyncIndex {
    type V = SyncModel;

    open spec fn view(&self) -> SyncModel {
        SyncModel {
            inputs: self.inputs@.map_values(|i: SyncInput| (i.id, i.path@)),
            records: self.records@,
        }
    }
}

/// Why no index could be had.
#[derive(Clone, Copy, Debug, PartialEq, Eq)]
pub enum SyncError {
    /// There is no synchronization file.
    NotFound,
    /// The file is not gzip data, or does not hold UTF-8 text.
    Corrupt,
}

/// The first position at or after `i` in `l` that holds `,` or `:`, or the
/// end of `l`.
pub open spec fn field_end(l: Seq<char>, i: int) -> int
    decreases l.len() - i,
{
    if i < 0 || i >= l.len() {
        l.len() as int
    } else if l[i] == ',' || l[i] == ':' {
        i
    } else {
        field_end(l, i + 1)
    }
}

/// The page number that a page marker line sets, if `l` is one that parses.
pub open spec fn page_marker(l: Seq<char>) -> Option<usize> {
    if l.len() > 0 && l[0] == '{' {
        parse_usize_spec(l.subrange(1, l.len() as int))
    } else {
        None
    }
}

/// `Input:`
pub open spec fn input_tag() -> Seq<char> {
    seq!['I', 'n', 'p', 'u', 't', ':']
}

/// The file id and path that an `Input:<id>:<path>` line registers.
pub open spec fn input_entry(l: Seq<char>) -> Option<(usize, Seq<char>)> {
    if starts_with(l, input_tag()) {
        match find_from(l, seq![':'], 6) {
            Some(c) => match parse_usize_spec(l.subrange(6, c)) {
                Some(id) => Some((id, l.subrange(c + 1, l.len() as int))),
                None => None,
            },
            None => None,
        }
    } else {
        None
    }
}

/// The kind, file id, line and vertical position of a record line
/// `<kind><id>,<line>:<h>,<v>` (what follows `<v>` starts with `,` or `:`).
pub open spec fn record_fields(l: Seq<char>) -> Option<(char, usize, usize, i64)> {
    let e1 = field_end(l, 1);
    let e2 = field_end(l, e1 + 1);
    let e3 = field_end(l, e2 + 1);
    let e4 = field_end(l, e3 + 1);
    if l.len() > 0 && e3 < l.len() && l[e1] == ',' && l[e2] == ':' && l[e3] == ',' {
        match (
            parse_usize_spec(l.subrange(1, e1)),
            parse_usize_spec(l.subrange(e1 + 1, e2)),
            parse_i64_spec(l.subrange(e3 + 1, e4)),
        ) {
            (Some(id), Some(line), Some(v)) => Some((l[0], id, line, v)),
            _ => None,
        }
    } else {
        None
    }
}

/// The state of a scan: registered inputs, records, current page.
pub struct ScanState {
    pub inputs: Seq<(usize, Seq<char>)>,
    pub records: Seq<SyncRecord>,
    pub page: usize,
}

/// What one line does to the scan.
pub open spec fn scan_line(s: ScanState, l: Seq<char>) -> ScanState {
    if l.len() > 0 && l[0] == '{' {
        match page_marker(l) {
            Some(p) => ScanState { page: p, ..s },
            None => s,
        }
    } else {
        match input_entry(l) {
            Some(e) => ScanState { inputs: s.inputs.push(e), ..s },
            None => match record_fields(l) {
                Some((kind, file_id, line, v)) => ScanState {
                    records: s.records.push(SyncRecord { kind, file_id, line, page: s.page, v }),
                    ..s
                },
                None => s,
            },
        }
    }
}

/// The scan of a list of lines, from the first.
pub open spec fn scan_lines(ls: Seq<Seq<char>>) -> ScanState
    decreases ls.len(),
{
    if ls.len() == 0 {
        ScanState { inputs: seq![], records: seq![], page: 0 }
    } else {
        scan_line(scan_lines(ls.drop_last()), ls.last())
    }
}

/// The index of a synchronization text.
pub open spec fn index_of_text(t: Seq<char>) -> SyncModel {
    let s = scan_lines(lines_of(t));
    SyncModel { inputs: s.inputs, records: s.records }
}

/// The text that decoding `data` as gzip and then as UTF-8 yields; `None`
/// where either step fails.
pub uninterp spec fn gunzip_text_of(data: Seq<u8>) -> Option<Seq<char>>;

/// Relies on `flate2::read::GzDecoder` read through `Read::read_to_string`:
/// the text that the gzip data decodes to, or `None` when the data is not
/// valid gzip or does not decode to UTF-8.
#[verifier::external_body]
fn gunzip_text(data: &[u8]) -> (r: Option<String>)
    ensures
        match r {
            Some(t) => gunzip_text_of(data@) == Some(t@),
            None => gunzip_text_of(data@) is None,
        },
{
    let mut text = String::new();
    match flate2::read::GzDecoder::new(data).read_to_string(&mut text) {
        Ok(_) => Some(text),
        Err(_) => None,
    }
}

fn field_end_exec(l: &Vec<char>, i: usize) -> (r: usize)
    ensures
        r == field_end(l@, i as int),
        i <= l@.len() ==> i <= r <= l@.len(),
        i > l@.len() ==> r == l@.len(),
{
    let n = l.len();
    if i >= n {
        return n;
    }
    let mut k: usize = i;
    while k < n && l[k] != ',' && l[k] != ':'
        invariant
            i <= k <= n,
            n == l@.len(),
            field_end(l@, i as int) == field_end(l@, k as int),
        decreases n - k,
    {
        k = k + 1;
    }
    k
}

fn record_fields_exec(l: &Vec<char>) -> (r: Option<(char, usize, usize, i64)>)
    ensures
        r == record_fields(l@),
{
    let n = l.len();
    if n == 0 {
        return None;
    }
    let e1 = field_end_exec(l, 1);
    if e1 >= n || l[e1] != ',' {
        return None;
    }
    let e2 = field_end_exec(l, e1 + 1);
    if e2 >= n || l[e2] != ':' {
        return None;
    }
    let e3 = field_end_exec(l, e2 + 1);
    if e3 >= n || l[e3] != ',' {
        return None;
    }
    let e4 = field_end_exec(l, e3 + 1);
    let id = parse_usize(l, 1, e1);
    let line = parse_usize(l, e1 + 1, e2);
    let v = parse_i64(l, e3 + 1, e4);
    match (id, line, v) {
        (Some(id), Some(line), Some(v)) => Some((l[0], id, line, v)),
        _ => None,
    }
}

fn input_entry_exec(l: &Vec<char>, tag: &Vec<char>, colon: &Vec<char>) -> (r: Option<
    SyncInput,
>)
    requires
        tag@ == input_tag(),
        colon@ == seq![':'],
    ensures
        match input_entry(l@) {
            Some((id, path)) => r matches Some(x) && x.id == id && x.path@ == path,
            None => r is None,
        },
{
    if l.len() < 6 || !crate::text::occurs_at_exec(l, tag, 0) {
        return None;
    }
    match find_chars(l, colon, 6) {
        Some(c) => match parse_usize(l, 6, c) {
            Some(id) => {
                let path = slice_chars(l, c + 1, l.len());
                Some(SyncInput { id, path })
            },
            None => None,
        },
        None => None,
    }
}

impl SyncIndex {
    /// The index of a synchronization text, as `index_of_text` describes.
    pub fn parse(text: &str) -> (r: SyncIndex)
        ensures
            r@ == index_of_text(text@),
    {
        let chars = chars_of(text);
        let lines = split_lines(&chars);
        let tag = chars_of("Input:");
        let colon = chars_of(":");
        proof {
            reveal_strlit("Input:");
            reveal_strlit(":");
            assert(tag@ =~= input_tag());
            assert(colon@ =~= seq![':']);
        }
        let mut idx = SyncIndex { inputs: Vec::new(), records: Vec::new() };
        let mut page: usize = 0;
        let mut i: usize = 0;
        assert(views(lines@).take(0) =~= Seq::<Seq<char>>::empty());
        while i < lines.len()
            invariant
                i <= lines@.len(),
                tag@ == input_tag(),
                colon@ == seq![':'],
                views(lines@) == lines_of(text@),
                ({
                    let s = scan_lines(views(lines@).take(i as int));
                    idx@.inputs == s.inputs && idx@.records == s.records && page == s.page
                }),
            decreases lines@.len() - i,
        {
            let l = &lines[i];
            let ghost ls = views(lines@);
            proof {
                assert(ls.take(i + 1).drop_last() =~= ls.take(i as int));
                assert(ls.take(i + 1).last() == l@);
            }
            let ghost inputs_before = idx.inputs@;
            if l.len() > 0 && l[0] == '{' {
                match parse_usize(l, 1, l.len()) {
                    Some(p) => {
                        page = p;
                    },
                    None => {
                    },
                }
            } else {
                match input_entry_exec(l, &tag, &colon) {
                    Some(e) => {
                        idx.inputs.push(e);
                        assert(idx@.inputs =~= inputs_before.map_values(
                            |i: SyncInput| (i.id, i.path@),
                        ).push((e.id, e.path@)));
                    },
                    None => match record_fields_exec(l) {
                        Some((kind, file_id, line, v)) => {
                            idx.records.push(SyncRecord { kind, file_id, line, page, v });
                        },
                        None => {
                        },
                    },
                }
            }
            i = i + 1;
        }
        assert(views(lines@).take(lines@.len() as int) =~= views(lines@));
        idx
    }

    /// The index of a compressed synchronization file, given its bytes
    /// (`None` when there is no such file).
    pub fn load(file: Option<Vec<u8>>) -> (r: Result<SyncIndex, SyncError>)
        ensures
            match file {
                None => r == Err::<SyncIndex, SyncError>(SyncError::NotFound),
                Some(bytes) => match gunzip_text_of(bytes@) {
                    Some(t) => r matches Ok(idx) && idx@ == index_of_text(t),
                    None => r == Err::<SyncIndex, SyncError>(SyncError::Corrupt),
                },
            },
    {
        match file {
            None => Err(SyncError::NotFound),
            Some(bytes) => match gunzip_text(bytes.as_slice()) {
                Some(text) => Ok(SyncIndex::parse(text.as_str())),
                None => Err(SyncError::Corrupt),
            },
        }
    }
}

/// The id of the first registered file, from position `i` on, whose path
/// contains `name`.
pub open spec fn input_id_for(inputs: Seq<(usize, Seq<char>)>, name: Seq<char>, i: int) -> Option<
    usize,
>
    decreases inputs.len() - i,
{
    if i < 0 || i >= inputs.len() {
        None
    } else if contains_chars(inputs[i].1, name) {
        Some(inputs[i].0)
    } else {
        input_id_for(inputs, name, i + 1)
    }
}

/// The first record, from position `i` on, of line `line` of file `id`.
pub open spec fn record_for(records: Seq<SyncRecord>, id: usize, line: usize, i: int) -> Option<
    SyncRecord,
>
    decreases records.len() - i,
{
    if i < 0 || i >= records.len() {
        None
    } else if records[i].file_id == id && records[i].line == line {
        Some(records[i])
    } else {
        record_for(records, id, line, i + 1)
    }
}

/// The record that forward search lands on for line `line` of the file
/// whose path contains `name`: the first one in the file's order.
pub open spec fn forward_record(m: SyncModel, line: usize, name: Seq<char>) -> Option<SyncRecord> {
    match input_id_for(m.inputs, name, 0) {
        Some(id) => record_for(m.records, id, line, 0),
        None => None,
    }
}

/// The record kinds that inverse search considers.
pub open spec fn is_position_kind(k: char) -> bool {
    k == 'x' || k == 'k' || k == 'g' || k == 'v' || k == 'h'
}

/// How far position `v` lies from `target`.
pub open spec fn distance(v: i64, target: int) -> int {
    if v >= target {
        v - target
    } else {
        target - v
    }
}

/// Among the first `n` records, the nearest to `target` that stands on page
/// `page`, has a position kind and lies closer than `tolerance`, as its
/// distance and line; of equally near records, the earliest.
pub open spec fn nearest_record(
    records: Seq<SyncRecord>,
    page: usize,
    target: int,
    tolerance: int,
    n: int,
) -> Option<(int, usize)>
    decreases n,
{
    if n <= 0 {
        None
    } else {
        let best = nearest_record(records, page, target, tolerance, n - 1);
        let r = records[n - 1];
        let d = distance(r.v, target);
        let nearer = match best {
            Some((bd, _)) => d < bd,
            None => true,
        };
        if r.page == page && is_position_kind(r.kind) && d < tolerance && nearer {
            Some((d, r.line))
        } else {
            best
        }
    }
}

/// The line that inverse search finds on page number `page` near `target`;
/// none when the nearest record gives line 0.
pub open spec fn inverse_line(m: SyncModel, page: usize, target: int, tolerance: int) -> Option<
    usize,
> {
    match nearest_record(m.records, page, target, tolerance, m.records.len() as int) {
        Some((_, line)) => if line > 0 {
            Some(line)
        } else {
            None
        },
        None => None,
    }
}

impl SyncIndex {
    fn input_id(&self, name: &Vec<char>) -> (r: Option<usize>)
        ensures
            r == input_id_for(self@.inputs, name@, 0),
    {
        let mut i: usize = 0;
        while i < self.inputs.len()
            invariant
                i <= self.inputs@.len(),
                input_id_for(self@.inputs, name@, 0) == input_id_for(self@.inputs, name@, i as int),
            decreases self.inputs@.len() - i,
        {
            if contains_exec(&self.inputs[i].path, name) {
                return Some(self.inputs[i].id);
            }
            i = i + 1;
        }
        None
    }

    /// The first record of line `line` in the first registered file whose
    /// path contains `file_name`.
    pub fn find_forward(&self, line: usize, file_name: &str) -> (r: Option<SyncRecord>)
        ensures
            r == forward_record(self@, line, file_name@),
    {
        let name = chars_of(file_name);
        let id = match self.input_id(&name) {
            Some(id) => id,
            None => return None,
        };
        let mut j: usize = 0;
        while j < self.records.len()
            invariant
                j <= self.records@.len(),
                forward_record(self@, line, file_name@) == record_for(
                    self@.records,
                    id,
                    line,
                    j as int,
                ),
            decreases self.records@.len() - j,
        {
            let r = self.records[j];
            if r.file_id == id && r.line == line {
                return Some(r);
            }
            j = j + 1;
        }
        None
    }

    /// The line of the record nearest to `target` on page number `page`, as
    /// `inverse_line` describes.
    pub fn find_inverse(&self, page: usize, target: u64, tolerance: u64) -> (r: Option<usize>)
        ensures
            r == inverse_line(self@, page, target as int, tolerance as int),
    {
        let mut best: Option<(u128, usize)> = None;
        let mut j: usize = 0;
        while j < self.records.len()
            invariant
                j <= self.records@.len(),
                match best {
                    Some((bd, bl)) => nearest_record(
                        self@.records,
                        page,
                        target as int,
                        tolerance as int,
                        j as int,
                    ) == Some((bd as int, bl)),
                    None => nearest_record(
                        self@.records,
                        page,
                        target as int,
                        tolerance as int,
                        j as int,
                    ) is None,
                },
            decreases self.records@.len() - j,
        {
            let r = self.records[j];
            let d: u128 = if r.v as i128 >= target as i128 {
                (r.v as i128 - target as i128) as u128
            } else {
                (target as i128 - r.v as i128) as u128
            };
            let kind_ok = r.kind == 'x' || r.kind == 'k' || r.kind == 'g' || r.kind == 'v'
                || r.kind == 'h';
            let nearer = match best {
                Some((bd, _)) => d < bd,
                None => true,
            };
            if r.page == page && kind_ok && d < tolerance as u128 && nearer {
                best = Some((d, r.line));
            }
            j = j + 1;
        }
        match best {
            Some((_, line)) => if line > 0 {
                Some(line)
            } else {
                None
            },
            None => None,
        }
    }
}

/// The default distance, in scaled points, within which inverse search
/// accepts a record: fifty points, a few lines of text.
pub const DEFAULT_TOLERANCE_SP: u64 = 50 * 65536;

/// The heights of the rendered pages, in scaled points, by page index (the
/// first page has index 0). A height of 0 stands for an unknown one.
pub struct PageGeometry {
    pub heights: Vec<u64>,
}

/// The known height of page `index`, if there is one.
pub open spec fn known_height(heights: Seq<u64>, index: int) -> Option<u64> {
    if 0 <= index < heights.len() && heights[index] > 0 {
        Some(heights[index])
    } else {
        None
    }
}

/// The fraction `num / den` of a page's height, from its top.
#[derive(Clone, Copy, Debug)]
pub struct Fraction {
    pub num: u64,
    pub den: u64,
}

impl Fraction {
    /// A fraction between 0 and 1.
    pub open spec fn wf(self) -> bool {
        self.den > 0 && self.num <= self.den
    }
}

/// A place in the rendered document: a page index and a fraction of its height.
#[derive(Clone, Copy, Debug)]
pub struct PagePosition {
    pub page: usize,
    pub fraction: Fraction,
}

/// `n / d` rounded to the nearest integer, halves upwards.
pub open spec fn round_div(n: int, d: int) -> int {
    (2 * n + d) / (2 * d)
}

/// `v` held between 0 and `h`.
pub open spec fn clamp_to(v: i64, h: u64) -> u64 {
    if v < 0 {
        0
    } else if v > h {
        h
    } else {
        v as u64
    }
}

/// The page index that the proportional estimate gives for source line
/// `line`: `page_count * line / line_count` rounded, at most the last page.
pub open spec fn estimated_page(line: usize, page_count: usize, line_count: usize) -> usize {
    let total: int = if line_count == 0 {
        1
    } else {
        line_count as int
    };
    let last: int = if page_count == 0 {
        0
    } else {
        page_count - 1
    };
    let p = round_div(page_count * line, total);
    (if p > last {
        last
    } else {
        p
    }) as usize
}

/// The 1-based source line that the proportional estimate gives for a click
/// at `num / den` of page `page`: the click's place in the whole document,
/// times the number of lines, rounded, at most the last line.
pub open spec fn estimated_line(
    page: usize,
    num: u64,
    den: u64,
    page_count: usize,
    line_count: usize,
) -> usize {
    let total: int = if line_count == 0 {
        1
    } else {
        line_count as int
    };
    if page_count == 0 {
        1
    } else {
        let l = round_div(total * (page * den + num), page_count * den);
        ((if l > total - 1 {
            total - 1
        } else {
            l
        }) + 1) as usize
    }
}

/// The index of an optional index, as plain values.
pub open spec fn index_view(index: Option<&SyncIndex>) -> Option<SyncModel> {
    match index {
        Some(i) => Some(i@),
        None => None,
    }
}

/// Where forward search places line `line` of the file named `name`: the
/// page of its first record (page number `p` has index `p - 1`) and the
/// record's position as a fraction of that page's height, when that height
/// is known; without an index, a record or the page's height, the
/// estimated page, half way down.
pub open spec fn forward_position(
    index: Option<SyncModel>,
    line: usize,
    name: Seq<char>,
    heights: Seq<u64>,
    page_count: usize,
    line_count: usize,
) -> (usize, u64, u64) {
    let hit = match index {
        Some(m) => forward_record(m, line, name),
        None => None,
    };
    match hit {
        Some(r) => {
            let page: usize = if r.page == 0 {
                0
            } else {
                (r.page - 1) as usize
            };
            match known_height(heights, page as int) {
                Some(h) => (page, clamp_to(r.v, h), h),
                None => (estimated_page(line, page_count, line_count), 1, 2),
            }
        },
        None => (estimated_page(line, page_count, line_count), 1, 2),
    }
}

/// The source line that inverse search gives for a click at fraction `f`
/// of page index `page`: the line of the nearest record there, when the
/// index and the page's height are known and such a record exists; else
/// the estimated line.
pub open spec fn inverse_position(
    index: Option<SyncModel>,
    page: usize,
    f: Fraction,
    heights: Seq<u64>,
    page_count: usize,
    line_count: usize,
    tolerance: u64,
) -> usize {
    let hit = match (index, known_height(heights, page as int)) {
        (Some(m), Some(h)) => if page < usize::MAX {
            inverse_line(m, (page + 1) as usize, (f.num * h) / (f.den as int), tolerance as int)
        } else {
            None
        },
        _ => None,
    };
    match hit {
        Some(l) => l,
        None => estimated_line(page, f.num, f.den, page_count, line_count),
    }
}

proof fn lemma_round_div(n: int, d: int, q: int, r: int)
    requires
        d > 0,
        0 <= r < d,
        n == q * d + r,
    ensures
        round_div(n, d) == q + (if 2 * r >= d {
            1int
        } else {
            0int
        }),
{
    if 2 * r >= d {
        assert(2 * n + d == (q + 1) * (2 * d) + (2 * r - d)) by (nonlinear_arith)
            requires
                n == q * d + r,
        ;
        lemma_fundamental_div_mod_converse(2 * n + d, 2 * d, q + 1, 2 * r - d);
    } else {
        assert(2 * n + d == q * (2 * d) + (2 * r + d)) by (nonlinear_arith)
            requires
                n == q * d + r,
        ;
        lemma_fundamental_div_mod_converse(2 * n + d, 2 * d, q, 2 * r + d);
    }
}

/// The product of two values that fit in 64 bits.
fn mul_wide(a: u128, b: u128) -> (r: u128)
    requires
        a <= u64::MAX,
        b <= u64::MAX,
    ensures
        r == a * b,
        r <= u64::MAX * u64::MAX,
{
    assert(a * b <= u64::MAX * u64::MAX) by (nonlinear_arith)
        requires
            a <= u64::MAX,
            b <= u64::MAX,
            0 <= a,
            0 <= b,
    ;
    a * b
}

/// The page index that the proportional estimate gives, as
/// `estimated_page` describes.
pub fn estimate_page(line: usize, page_count: usize, line_count: usize) -> (r: usize)
    ensures
        r == estimated_page(line, page_count, line_count),
{
    let total: u128 = if line_count == 0 {
        1
    } else {
        line_count as u128
    };
    let last: u128 = if page_count == 0 {
        0
    } else {
        (page_count - 1) as u128
    };
    let n: u128 = mul_wide(page_count as u128, line as u128);
    let q = n / total;
    let rem = n % total;
    proof {
        lemma_fundamental_div_mod(n as int, total as int);
        lemma_round_div(n as int, total as int, q as int, rem as int);
        assert(q <= n) by (nonlinear_arith)
            requires
                n == total * q + rem,
                total >= 1,
                q >= 0,
                rem >= 0,
        ;
    }
    let p: u128 = if rem >= total - rem {
        q + 1
    } else {
        q
    };
    if p > last {
        last as usize
    } else {
        p as usize
    }
}

/// The 1-based source line that the proportional estimate gives, as
/// `estimated_line` describes.
pub fn estimate_line(page: usize, fraction: Fraction, page_count: usize, line_count: usize) -> (r:
    usize)
    requires
        fraction.wf(),
    ensures
        r == estimated_line(page, fraction.num, fraction.den, page_count, line_count),
{
    if page_count == 0 {
        return 1;
    }
    let total: u128 = if line_count == 0 {
        1
    } else {
        line_count as u128
    };
    let p = page_count as u128;
    let den = fraction.den as u128;
    let num = fraction.num as u128;
    let big_d: u128 = mul_wide(p, den);
    if page as u128 >= p {
        assert(round_div(total * (page * den + num), p * den) >= total) by (nonlinear_arith)
            requires
                page >= p,
                p > 0,
                den > 0,
                num >= 0,
                total >= 1,
        {
            assert(total * (page * den + num) >= total * (p * den));
            assert(2 * (total * (page * den + num)) + p * den >= total * (2 * (p * den)));
        }
        return (total - 1 + 1) as usize;
    }
    let v: u128 = mul_wide(total, page as u128);
    let qa = v / p;
    let ra = v % p;
    let w: u128 = mul_wide(total, num);
    let qw = w / den;
    let rw = w % den;
    proof {
        lemma_fundamental_div_mod(v as int, p as int);
        lemma_fundamental_div_mod(w as int, den as int);
        assert(qw <= total) by (nonlinear_arith)
            requires
                w == den * qw + rw,
                w == total * num,
                num <= den,
                0 <= rw,
                den > 0,
        {
            assert(den * qw <= den * total);
        }
    }
    let m: u128 = ra + qw;
    let qm = m / p;
    let rm = m % p;
    proof {
        lemma_fundamental_div_mod(m as int, p as int);
        assert(rm * den + rw < big_d) by (nonlinear_arith)
            requires
                rm < p,
                rw < den,
                big_d == p * den,
                0 <= rm,
        {
            assert(rm * den <= (p - 1) * den);
        }
    }
    let q: u128 = qa + qm;
    let rem: u128 = rm * den + rw;
    proof {
        assert(total * (page * den + num) == q * big_d + rem) by (nonlinear_arith)
            requires
                v == total * page,
                v == p * qa + ra,
                w == total * num,
                w == den * qw + rw,
                m == ra + qw,
                m == p * qm + rm,
                q == qa + qm,
                rem == rm * den + rw,
                big_d == p * den,
        ;
        lemma_round_div(total * (page * den + num), big_d as int, q as int, rem as int);
        assert(q <= total) by (nonlinear_arith)
            requires
                total * (page * den + num) == q * big_d + rem,
                page < p,
                num <= den,
                big_d == p * den,
                big_d > 0,
                rem >= 0,
                q >= 0,
                total >= 1,
        {
            assert(page * den + num <= big_d) by (nonlinear_arith)
                requires
                    page + 1 <= p,
                    num <= den,
                    big_d == p * den,
                    den > 0,
            {
                assert((page + 1) * den <= p * den);
            }
            assert(total * (page * den + num) <= total * big_d);
            assert(q * big_d <= total * big_d);
        }
    }
    let l: u128 = if rem >= big_d - rem {
        q + 1
    } else {
        q
    };
    let clamped: u128 = if l > total - 1 {
        total - 1
    } else {
        l
    };
    (clamped + 1) as usize
}

/// The number of lines in `text`, as `lines_of` counts them.
pub fn count_lines(text: &str) -> (r: usize)
    ensures
        r == lines_of(text@).len(),
{
    let chars = chars_of(text);
    split_lines(&chars).len()
}

/// Forward search: where line `line` of the file named `file_name` stands
/// in the rendered document, as `forward_position` describes.
pub fn forward_search(
    index: Option<&SyncIndex>,
    line: usize,
    file_name: &str,
    geometry: &PageGeometry,
    page_count: usize,
    line_count: usize,
) -> (r: PagePosition)
    ensures
        (r.page, r.fraction.num, r.fraction.den) == forward_position(
            index_view(index),
            line,
            file_name@,
            geometry.heights@,
            page_count,
            line_count,
        ),
        r.fraction.wf(),
{
    let hit = match index {
        Some(i) => i.find_forward(line, file_name),
        None => None,
    };
    let half = Fraction { num: 1, den: 2 };
    match hit {
        Some(rec) => {
            let page: usize = if rec.page == 0 {
                0
            } else {
                rec.page - 1
            };
            if page < geometry.heights.len() && geometry.heights[page] > 0 {
                let h = geometry.heights[page];
                let num: u64 = if rec.v < 0 {
                    0
                } else if rec.v as u64 > h {
                    h
                } else {
                    rec.v as u64
                };
                PagePosition { page, fraction: Fraction { num, den: h } }
            } else {
                PagePosition { page: estimate_page(line, page_count, line_count), fraction: half }
            }
        },
        None => PagePosition {
            page: estimate_page(line, page_count, line_count),
            fraction: half,
        },
    }
}

/// Inverse search: the 1-based source line for a click at `fraction` of
/// page index `page`, as `inverse_position` describes.
pub fn inverse_search(
    index: Option<&SyncIndex>,
    page: usize,
    fraction: Fraction,
    geometry: &PageGeometry,
    page_count: usize,
    line_count: usize,
    tolerance: u64,
) -> (r: usize)
    requires
        fraction.wf(),
    ensures
        r == inverse_position(
            index_view(index),
            page,
            fraction,
            geometry.heights@,
            page_count,
            line_count,
            tolerance,
        ),
{
    let mut hit: Option<usize> = None;
    if let Some(i) = index {
        if page < geometry.heights.len() && geometry.heights[page] > 0 && page < usize::MAX {
            let h = geometry.heights[page];
            let product: u128 = mul_wide(fraction.num as u128, h as u128);
            let target_wide: u128 = product / fraction.den as u128;
            assert(target_wide <= h) by (nonlinear_arith)
                requires
                    target_wide == product / (fraction.den as u128),
                    product == fraction.num * h,
                    fraction.num <= fraction.den,
                    fraction.den > 0,
            {
                assert(product <= fraction.den * h);
            }
            hit = i.find_inverse(page + 1, target_wide as u64, tolerance);
        }
    }
    match hit {
        Some(l) => l,
        None => estimate_line(page, fraction, page_count, line_count),
    }
}

} // verus!
