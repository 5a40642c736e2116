//! Extracting content from documents: which extractor takes which file kind, the text of
//! Word and Excel documents from what docx-rs and calamine read of them (the reading is the
//! caller's, where their panics can be caught), and the choices made for PDF pages and JPEG
//! images, whose rendering and files are the caller's.
use vstd::prelude::*;
use crate::json::{Json, JsonV, json_string, json_to_string, serde_json_text, decimal_text, u64_to_string, jobj2, jarr1};
use crate::fresh::new_uuid;
use crate::processing::{encode_base64, base64_standard};
use crate::pipeline::ExtractedContent;
use crate::text::{
    str_eq, str_to_string, is_empty_text, concat2, concat3, split_char, split_spec, trim, trim_spec, join_strings, join_spec,
    views_of,
};

verus! {

// ---- configuration and extractors ----
/// Where extracted files go, and how images are written.
pub struct ExtractorConfig {
    pub output_dir: String,
    pub image_quality: u8,
    pub max_image_dimension: u32,
}

impl ExtractorConfig {
    /// `./extracted_content`, quality 85, at most 2048 pixels a side.
    pub fn default() -> (r: ExtractorConfig)
        ensures
            r.output_dir@ == "./extracted_content"@,
            r.image_quality == 85,
            r.max_image_dimension == 2048,
    {
        ExtractorConfig {
            output_dir: String::from_str("./extracted_content"),
            image_quality: 85,
            max_image_dimension: 2048,
        }
    }
}

/// Word documents.
pub struct DocxExtractor;

/// Excel workbooks.
pub struct XlsxExtractor;

/// PDF documents, page by page as images.
pub struct PdfExtractor;

/// JPEG images.
pub struct JpegExtractor {
    pub max_size: u64,
    pub max_dimension: u32,
    pub jpeg_quality: u8,
    pub output_dir: String,
}

/// What every extractor tells: the file kinds it takes, and how many pages a document has.
pub trait DocumentExtractor {
    /// Extracts the content of a document, or tells which outside work comes next.
    fn extract(&self, content: &[u8], config: &ExtractorConfig) -> (r: Result<Extraction, String>);

    /// The file extensions this extractor takes.
    fn get_supported_extensions(&self) -> (r: Vec<&'static str>);

    /// The number of pages; one for documents that are not paged.
    fn count_pages(&self, content: &[u8]) -> (r: Result<u32, String>)
        ensures
            r == Ok::<u32, String>(1),
    {
        Ok(1)
    }
}

pub open spec fn strs_of(v: Seq<&'static str>) -> Seq<Seq<char>> {
    v.map_values(|s: &'static str| s@)
}

impl DocumentExtractor for DocxExtractor {
    /// A Word document is read by the caller, who hands its body to `word_contents`; here
    /// only bytes that zip does not open as an archive are refused, with docx-rs's text.
    fn extract(&self, content: &[u8], _config: &ExtractorConfig) -> (r: Result<Extraction, String>)
        ensures
            !zip_opens(content@) ==> r is Err && r->Err_0@ == not_an_archive_text(),
            zip_opens(content@) ==> r matches Ok(Extraction::ReadWord),
    {
        if archive_opens(content) {
            Ok(Extraction::ReadWord)
        } else {
            Err(String::from_str("Failed to read from zip."))
        }
    }

    fn get_supported_extensions(&self) -> (r: Vec<&'static str>)
        ensures
            strs_of(r@) == seq!["docx"@, "doc"@],
    {
        let v: Vec<&'static str> = vec!["docx", "doc"];
        assert(strs_of(v@) =~= seq!["docx"@, "doc"@]);
        v
    }
}

impl DocumentExtractor for XlsxExtractor {
    /// A workbook is read by the caller, who hands its sheets to `workbook_contents`.
    fn extract(&self, _content: &[u8], _config: &ExtractorConfig) -> (r: Result<Extraction, String>)
        ensures
            r matches Ok(Extraction::ReadWorkbook),
    {
        Ok(Extraction::ReadWorkbook)
    }

    fn get_supported_extensions(&self) -> (r: Vec<&'static str>)
        ensures
            strs_of(r@) == seq!["xlsx"@, "xls"@],
    {
        let v: Vec<&'static str> = vec!["xlsx", "xls"];
        assert(strs_of(v@) =~= seq!["xlsx"@, "xls"@]);
        v
    }
}

impl DocumentExtractor for PdfExtractor {
    /// A PDF's pages are rendered by the caller; `pdf_page_contents` then names them.
    fn extract(&self, _content: &[u8], _config: &ExtractorConfig) -> (r: Result<Extraction, String>)
        ensures
            r matches Ok(Extraction::RenderPdf),
    {
        Ok(Extraction::RenderPdf)
    }

    fn get_supported_extensions(&self) -> (r: Vec<&'static str>)
        ensures
            strs_of(r@) == seq!["pdf"@],
    {
        let v: Vec<&'static str> = vec!["pdf"];
        assert(strs_of(v@) =~= seq!["pdf"@]);
        v
    }
}

impl DocumentExtractor for JpegExtractor {
    /// An image over the size limit is refused; one within it is scaled and encoded by the
    /// caller, and `image_response` makes its message.
    fn extract(&self, content: &[u8], _config: &ExtractorConfig) -> (r: Result<Extraction, String>)
        ensures
            content@.len() > self.max_size ==> r is Err && r->Err_0@ == "Image size exceeds 20MB limit"@,
            content@.len() <= self.max_size ==> r matches Ok(Extraction::ProcessImage),
    {
        match self.check_size(content.len()) {
            Ok(()) => Ok(Extraction::ProcessImage),
            Err(m) => Err(m),
        }
    }

    fn get_supported_extensions(&self) -> (r: Vec<&'static str>)
        ensures
            strs_of(r@) == seq!["jpg"@, "jpeg"@],
    {
        let v: Vec<&'static str> = vec!["jpg", "jpeg"];
        assert(strs_of(v@) =~= seq!["jpg"@, "jpeg"@]);
        v
    }
}

impl JpegExtractor {
    /// At most 20 * 2048 * 2048 bytes, 2048 pixels a side, quality 80, images kept in
    /// `./processed_images`.
    pub fn default() -> (r: JpegExtractor)
        ensures
            r.max_size == 20 * 2048 * 2048,
            r.max_dimension == 2048,
            r.jpeg_quality == 80,
            r.output_dir@ == "./processed_images"@,
    {
        JpegExtractor {
            max_size: 20 * 2048 * 2048,
            max_dimension: 2048,
            jpeg_quality: 80,
            output_dir: String::from_str("./processed_images"),
        }
    }

    /// The default extractor with another output directory.
    pub fn with_output_dir(output_dir: String) -> (r: JpegExtractor)
        ensures
            r.max_size == 20 * 2048 * 2048,
            r.max_dimension == 2048,
            r.jpeg_quality == 80,
            r.output_dir == output_dir,
    {
        JpegExtractor { output_dir, ..JpegExtractor::default() }
    }

    /// An image over the size limit is refused.
    pub fn check_size(&self, content_len: usize) -> (r: Result<(), String>)
        ensures
            content_len > self.max_size ==> r is Err && r->Err_0@ == "Image size exceeds 20MB limit"@,
            content_len <= self.max_size ==> r is Ok,
    {
        if content_len as u64 > self.max_size {
            Err(String::from_str("Image size exceeds 20MB limit"))
        } else {
            Ok(())
        }
    }
}

/// The extractor for one kind of file.
pub enum ExtractorKind {
    Pdf(PdfExtractor),
    Docx(DocxExtractor),
    Xlsx(XlsxExtractor),
    Jpeg(JpegExtractor),
}

/// The extensions each kind of extractor takes.
pub open spec fn kind_extensions(k: ExtractorKind) -> Seq<Seq<char>> {
    match k {
        ExtractorKind::Pdf(_) => seq!["pdf"@],
        ExtractorKind::Docx(_) => seq!["docx"@, "doc"@],
        ExtractorKind::Xlsx(_) => seq!["xlsx"@, "xls"@],
        ExtractorKind::Jpeg(_) => seq!["jpg"@, "jpeg"@],
    }
}

impl ExtractorKind {
    pub fn get_supported_extensions(&self) -> (r: Vec<&'static str>)
        ensures
            strs_of(r@) == kind_extensions(*self),
    {
        match self {
            ExtractorKind::Pdf(e) => e.get_supported_extensions(),
            ExtractorKind::Docx(e) => e.get_supported_extensions(),
            ExtractorKind::Xlsx(e) => e.get_supported_extensions(),
            ExtractorKind::Jpeg(e) => e.get_supported_extensions(),
        }
    }
}

/// The extractors in the order they are asked.
pub struct DocumentExtractorFactory {
    pub extractors: Vec<ExtractorKind>,
}

/// The first extractor, from position `i` on, that takes `ext`.
pub open spec fn first_taking(es: Seq<ExtractorKind>, ext: Seq<char>, i: int) -> Option<int>
    decreases es.len() - i,
{
    if i < 0 || i >= es.len() {
        None
    } else if kind_extensions(es[i]).contains(ext) {
        Some(i)
    } else {
        first_taking(es, ext, i + 1)
    }
}

fn contains_str(v: &Vec<&'static str>, s: &str) -> (r: bool)
    ensures
        r == strs_of(v@).contains(s@),
{
    let mut i: usize = 0;
    while i < v.len()
        invariant
            i <= v@.len(),
            forall|k: int| 0 <= k < i ==> v@[k]@ != s@,
        decreases v@.len() - i,
    {
        if str_eq(v[i], s) {
            assert(strs_of(v@)[i as int] == s@);
            return true;
        }
        i = i + 1;
    }
    assert forall|k: int| 0 <= k < strs_of(v@).len() implies strs_of(v@)[k] != s@ by {
        assert(strs_of(v@)[k] == v@[k]@);
    }
    false
}

impl DocumentExtractorFactory {
    /// PDF, Word, Excel and JPEG, in that order.
    pub fn default() -> (r: DocumentExtractorFactory)
        ensures
            r.extractors@.len() == 4,
            r.extractors@[0] is Pdf,
            r.extractors@[1] is Docx,
            r.extractors@[2] is Xlsx,
            r.extractors@[3] is Jpeg,
            r.extractors@[3]->Jpeg_0.max_size == 20 * 2048 * 2048,
    {
        let mut extractors: Vec<ExtractorKind> = Vec::new();
        extractors.push(ExtractorKind::Pdf(PdfExtractor));
        extractors.push(ExtractorKind::Docx(DocxExtractor));
        extractors.push(ExtractorKind::Xlsx(XlsxExtractor));
        extractors.push(ExtractorKind::Jpeg(JpegExtractor::default()));
        DocumentExtractorFactory { extractors }
    }

    /// The first extractor that takes the extension.
    pub fn get_extractor(&self, extension: &str) -> (r: Option<&ExtractorKind>)
        ensures
            first_taking(self.extractors@, extension@, 0) matches Some(i) ==> r == Some(&self.extractors@[i]),
            first_taking(self.extractors@, extension@, 0) is None ==> r is None,
    {
        let mut i: usize = 0;
        while i < self.extractors.len()
            invariant
                i <= self.extractors@.len(),
                first_taking(self.extractors@, extension@, 0) == first_taking(self.extractors@, extension@, i as int),
            decreases self.extractors@.len() - i,
        {
            let exts = self.extractors[i].get_supported_extensions();
            if contains_str(&exts, extension) {
                return Some(&self.extractors[i]);
            }
            i = i + 1;
        }
        None
    }
}

// ---- text normalization ----
/// The trimmed lines of a text that are not empty.
pub open spec fn kept_lines(lines: Seq<Seq<char>>) -> Seq<Seq<char>>
    decreases lines.len(),
{
    if lines.len() == 0 {
        Seq::empty()
    } else if trim_spec(lines.last()).len() == 0 {
        kept_lines(lines.drop_last())
    } else {
        kept_lines(lines.drop_last()).push(trim_spec(lines.last()))
    }
}

/// A text with each line trimmed and the empty lines dropped, joined by line breaks.
pub open spec fn normalize_spec(t: Seq<char>) -> Seq<char> {
    join_spec(kept_lines(split_spec(t, '\n')), "\n"@)
}

pub fn normalize_text(t: &str) -> (r: String)
    ensures
        r@ == normalize_spec(t@),
{
    let lines = split_char(t, '\n');
    let ghost lv = split_spec(t@, '\n');
    let mut kept: Vec<String> = Vec::new();
    let mut i: usize = 0;
    while i < lines.len()
        invariant
            lv == split_spec(t@, '\n'),
            lines@.len() == lv.len(),
            forall|k: int| 0 <= k < lines@.len() ==> #[trigger] lines@[k]@ == lv[k],
            i <= lines@.len(),
            views_of(kept@) == kept_lines(lv.take(i as int)),
        decreases lines@.len() - i,
    {
        assert(lv.take(i + 1).drop_last() =~= lv.take(i as int));
        assert(lv.take(i + 1).last() == lv[i as int]);
        assert(lines@[i as int]@ == lv[i as int]);
        let line = trim(lines[i].as_str());
        if !is_empty_text(line.as_str()) {
            let ghost k0 = kept@;
            kept.push(line);
            proof {
                assert(views_of(kept@) =~= views_of(k0).push(kept@.last()@));
                assert(trim_spec(lv[i as int]).len() != 0);
                assert(kept_lines(lv.take(i + 1)) == kept_lines(lv.take(i as int)).push(trim_spec(lv[i as int])));
            }
        } else {
            proof {
                assert(trim_spec(lv[i as int]).len() == 0);
                assert(kept_lines(lv.take(i + 1)) == kept_lines(lv.take(i as int)));
            }
        }
        i = i + 1;
    }
    assert(lv.take(lines@.len() as int) =~= lv);
    join_strings(&kept, "\n")
}

// ---- Word documents ----
/// A run's child: its text, or something else.
pub enum RunPart {
    Text(String),
    Other,
}

/// A paragraph's child: a run with its children, or something else.
pub enum ParaPart {
    Run(Vec<RunPart>),
    Other,
}

/// A block of a Word document's body: a paragraph, a table (its column widths), or
/// something else.
pub enum DocBlock {
    Paragraph(Vec<ParaPart>),
    Table(Vec<usize>),
    Other,
}

pub enum DocBlockV {
    Paragraph(Seq<Option<Seq<Option<Seq<char>>>>>),
    Table(nat),
    Other,
}

pub open spec fn run_view(r: RunPart) -> Option<Seq<char>> {
    match r {
        RunPart::Text(t) => Some(t@),
        RunPart::Other => None,
    }
}

pub open spec fn para_view(p: ParaPart) -> Option<Seq<Option<Seq<char>>>> {
    match p {
        ParaPart::Run(rs) => Some(rs@.map_values(|r: RunPart| run_view(r))),
        ParaPart::Other => None,
    }
}

pub open spec fn block_view(b: DocBlock) -> DocBlockV {
    match b {
        DocBlock::Paragraph(ps) => DocBlockV::Paragraph(ps@.map_values(|p: ParaPart| para_view(p))),
        DocBlock::Table(g) => DocBlockV::Table(g@.len()),
        DocBlock::Other => DocBlockV::Other,
    }
}

pub open spec fn block_views(bs: Seq<DocBlock>) -> Seq<DocBlockV> {
    bs.map_values(|b: DocBlock| block_view(b))
}

/// Whether zip opens the bytes as an archive.
pub uninterp spec fn zip_opens(bytes: Seq<u8>) -> bool;

/// `zip::ZipArchive::new` over the bytes: whether it opens them as an archive (named
/// `zip_opens`). It is the first thing docx-rs does with a Word file; its failure is docx-rs's
/// `ReaderError::ZipError`, whose text is `Failed to read from zip.`
#[verifier::external_body]
fn archive_opens(content: &[u8]) -> (r: bool)
    ensures
        r == zip_opens(content@),
{
    zip::ZipArchive::new(std::io::Cursor::new(content)).is_ok()
}

/// The text docx-rs gives for bytes that are no archive.
pub open spec fn not_an_archive_text() -> Seq<char> {
    "Failed to read from zip."@
}

/// The content of a Word document whose body the caller read (docx-rs's `read_docx`, which
/// panics on some bodies and so is called where a panic can be caught): the body's text,
/// normalized, as one text part; a read error as it came.
pub fn word_contents(body: Result<Vec<DocBlock>, String>) -> (r: Result<Vec<ExtractedContent>, String>)
    ensures
        body matches Err(e) ==> r == Err::<Vec<ExtractedContent>, String>(e),
        body matches Ok(bs) ==> r is Ok && one_text(r->Ok_0@, normalize_spec(docx_raw_text(block_views(bs@)))),
{
    match body {
        Err(e) => Err(e),
        Ok(blocks) => {
            let raw = docx_text(&blocks);
            let text = normalize_text(raw.as_str());
            let mut v: Vec<ExtractedContent> = Vec::new();
            v.push(ExtractedContent::Text(text));
            Ok(v)
        },
    }
}

/// The text of a paragraph: the texts of its runs, in order.
pub open spec fn para_text(ps: Seq<Option<Seq<Option<Seq<char>>>>>) -> Seq<char>
    decreases ps.len(),
{
    if ps.len() == 0 {
        Seq::empty()
    } else {
        para_text(ps.drop_last()) + match ps.last() {
            Some(rs) => run_texts(rs),
            None => Seq::empty(),
        }
    }
}

pub open spec fn run_texts(rs: Seq<Option<Seq<char>>>) -> Seq<char>
    decreases rs.len(),
{
    if rs.len() == 0 {
        Seq::empty()
    } else {
        run_texts(rs.drop_last()) + match rs.last() {
            Some(t) => t,
            None => Seq::empty(),
        }
    }
}

/// The raw text of a Word body: each paragraph with text on a line; each table as a marked
/// block with its column count.
pub open spec fn docx_raw_text(bs: Seq<DocBlockV>) -> Seq<char>
    decreases bs.len(),
{
    if bs.len() == 0 {
        Seq::empty()
    } else {
        docx_raw_text(bs.drop_last()) + match bs.last() {
            DocBlockV::Paragraph(ps) => if trim_spec(para_text(ps)).len() == 0 {
                Seq::empty()
            } else {
                para_text(ps) + "\n"@
            },
            DocBlockV::Table(n) => "\n[TABLE]\n"@ + "Columns: "@ + decimal_text(n) + "\n"@ + "[/TABLE]\n"@,
            DocBlockV::Other => Seq::empty(),
        }
    }
}

fn runs_text(rs: &Vec<RunPart>) -> (r: String)
    ensures
        r@ == run_texts(rs@.map_values(|x: RunPart| run_view(x))),
{
    let ghost rv = rs@.map_values(|x: RunPart| run_view(x));
    let mut out = String::new();
    let mut i: usize = 0;
    while i < rs.len()
        invariant
            rv == rs@.map_values(|x: RunPart| run_view(x)),
            i <= rs@.len(),
            out@ == run_texts(rv.take(i as int)),
        decreases rs@.len() - i,
    {
        assert(rv.take(i + 1).drop_last() =~= rv.take(i as int));
        let ghost o0 = out@;
        match &rs[i] {
            RunPart::Text(t) => {
                out.append(t.as_str());
            },
            RunPart::Other => {
                assert(o0 + Seq::<char>::empty() =~= o0);
            },
        }
        i = i + 1;
    }
    assert(rv.take(rs@.len() as int) =~= rv);
    out
}

fn paragraph_text(ps: &Vec<ParaPart>) -> (r: String)
    ensures
        r@ == para_text(ps@.map_values(|p: ParaPart| para_view(p))),
{
    let ghost pvs = ps@.map_values(|p: ParaPart| para_view(p));
    let mut out = String::new();
    let mut i: usize = 0;
    while i < ps.len()
        invariant
            pvs == ps@.map_values(|p: ParaPart| para_view(p)),
            i <= ps@.len(),
            out@ == para_text(pvs.take(i as int)),
        decreases ps@.len() - i,
    {
        assert(pvs.take(i + 1).drop_last() =~= pvs.take(i as int));
        let ghost o0 = out@;
        match &ps[i] {
            ParaPart::Run(rs) => {
                let t = runs_text(rs);
                out.append(t.as_str());
            },
            ParaPart::Other => {
                assert(o0 + Seq::<char>::empty() =~= o0);
            },
        }
        i = i + 1;
    }
    assert(pvs.take(ps@.len() as int) =~= pvs);
    out
}

/// The raw text of a Word body, before normalization.
pub fn docx_text(blocks: &Vec<DocBlock>) -> (r: String)
    ensures
        r@ == docx_raw_text(block_views(blocks@)),
{
    let ghost bv = block_views(blocks@);
    let mut text = String::new();
    let mut i: usize = 0;
    while i < blocks.len()
        invariant
            bv == block_views(blocks@),
            i <= blocks@.len(),
            text@ == docx_raw_text(bv.take(i as int)),
        decreases blocks@.len() - i,
    {
        assert(bv.take(i + 1).drop_last() =~= bv.take(i as int));
        assert(bv.take(i + 1).last() == block_view(blocks@[i as int]));
        let ghost t0 = text@;
        match &blocks[i] {
            DocBlock::Paragraph(ps) => {
                let pt = paragraph_text(ps);
                let tr = trim(pt.as_str());
                if !is_empty_text(tr.as_str()) {
                    text.append(pt.as_str());
                    text.append("\n");
                    assert(text@ =~= t0 + (pt@ + "\n"@));
                } else {
                    assert(t0 + Seq::<char>::empty() =~= t0);
                }
            },
            DocBlock::Table(grid) => {
                let cols = u64_to_string(grid.len() as u64);
                text.append("\n[TABLE]\n");
                text.append("Columns: ");
                text.append(cols.as_str());
                text.append("\n");
                text.append("[/TABLE]\n");
                assert(text@ =~= t0 + ("\n[TABLE]\n"@ + "Columns: "@ + cols@ + "\n"@ + "[/TABLE]\n"@));
            },
            DocBlock::Other => {
                assert(t0 + Seq::<char>::empty() =~= t0);
            },
        }
        i = i + 1;
    }
    assert(bv.take(blocks@.len() as int) =~= bv);
    text
}

/// The parts are a single text part with this text.
pub open spec fn one_text(v: Seq<ExtractedContent>, t: Seq<char>) -> bool {
    &&& v.len() == 1
    &&& v[0] matches ExtractedContent::Text(x)
    &&& x@ == t
}


// ---- Excel workbooks ----
pub enum SheetV {
    Sheet(Seq<char>, Option<Seq<Seq<Seq<char>>>>),
}

pub open spec fn rows_view(rows: Option<Vec<Vec<String>>>) -> Option<Seq<Seq<Seq<char>>>> {
    match rows {
        Some(rs) => Some(rs@.map_values(|row: Vec<String>| views_of(row@))),
        None => None,
    }
}

pub open spec fn sheets_view(v: Seq<(String, Option<Vec<Vec<String>>>)>) -> Seq<(Seq<char>, Option<Seq<Seq<Seq<char>>>>)> {
    v.map_values(|s: (String, Option<Vec<Vec<String>>>)| (s.0@, rows_view(s.1)))
}

/// The non-empty cells of a row, joined by tabs.
pub open spec fn row_text(cells: Seq<Seq<char>>) -> Seq<char> {
    join_spec(nonempty_cells(cells), "\t"@)
}

pub open spec fn nonempty_cells(cells: Seq<Seq<char>>) -> Seq<Seq<char>>
    decreases cells.len(),
{
    if cells.len() == 0 {
        Seq::empty()
    } else if cells.last().len() == 0 {
        nonempty_cells(cells.drop_last())
    } else {
        nonempty_cells(cells.drop_last()).push(cells.last())
    }
}

/// The rows that have text, each on a line.
pub open spec fn rows_text(rows: Seq<Seq<Seq<char>>>) -> Seq<char>
    decreases rows.len(),
{
    if rows.len() == 0 {
        Seq::empty()
    } else if row_text(rows.last()).len() == 0 {
        rows_text(rows.drop_last())
    } else {
        rows_text(rows.drop_last()) + row_text(rows.last()) + "\n"@
    }
}

/// The raw text of a workbook: for each sheet that could be read, its name, its rows, and
/// an empty line.
pub open spec fn xlsx_raw_text(sheets: Seq<(Seq<char>, Option<Seq<Seq<Seq<char>>>>)>) -> Seq<char>
    decreases sheets.len(),
{
    if sheets.len() == 0 {
        Seq::empty()
    } else {
        xlsx_raw_text(sheets.drop_last()) + match sheets.last().1 {
            Some(rows) => "Sheet: "@ + sheets.last().0 + "\n"@ + rows_text(rows) + "\n"@,
            None => Seq::empty(),
        }
    }
}

fn row_line(cells: &Vec<String>) -> (r: String)
    ensures
        r@ == row_text(views_of(cells@)),
{
    let ghost cv = views_of(cells@);
    let mut kept: Vec<String> = Vec::new();
    let mut i: usize = 0;
    while i < cells.len()
        invariant
            cv == views_of(cells@),
            i <= cells@.len(),
            views_of(kept@) == nonempty_cells(cv.take(i as int)),
        decreases cells@.len() - i,
    {
        assert(cv.take(i + 1).drop_last() =~= cv.take(i as int));
        assert(cv.take(i + 1).last() == cv[i as int]);
        assert(cv[i as int] == cells@[i as int]@);
        if !is_empty_text(cells[i].as_str()) {
            let ghost k0 = kept@;
            kept.push(cells[i].clone());
            assert(views_of(kept@) =~= views_of(k0).push(cv[i as int]));
        } else {
            assert(cv[i as int] =~= Seq::<char>::empty());
        }
        i = i + 1;
    }
    assert(cv.take(cells@.len() as int) =~= cv);
    join_strings(&kept, "\t")
}

/// The raw text of a workbook, before normalization.
pub fn xlsx_text(sheets: &Vec<(String, Option<Vec<Vec<String>>>)>) -> (r: String)
    ensures
        r@ == xlsx_raw_text(sheets_view(sheets@)),
{
    let ghost sv = sheets_view(sheets@);
    let mut text = String::new();
    let mut i: usize = 0;
    while i < sheets.len()
        invariant
            sv == sheets_view(sheets@),
            i <= sheets@.len(),
            text@ == xlsx_raw_text(sv.take(i as int)),
        decreases sheets@.len() - i,
    {
        assert(sv.take(i + 1).drop_last() =~= sv.take(i as int));
        let ghost t0 = text@;
        match &sheets[i].1 {
            Some(rows) => {
                let ghost rv = rows@.map_values(|row: Vec<String>| views_of(row@));
                text.append("Sheet: ");
                text.append(sheets[i].0.as_str());
                text.append("\n");
                let ghost t1 = text@;
                let mut j: usize = 0;
                while j < rows.len()
                    invariant
                        rv == rows@.map_values(|row: Vec<String>| views_of(row@)),
                        j <= rows@.len(),
                        text@ == t1 + rows_text(rv.take(j as int)),
                    decreases rows@.len() - j,
                {
                    assert(rv.take(j + 1).drop_last() =~= rv.take(j as int));
                    assert(rv.take(j + 1).last() == views_of(rows@[j as int]@));
                    let line = row_line(&rows[j]);
                    let ghost tj = text@;
                    if !is_empty_text(line.as_str()) {
                        text.append(line.as_str());
                        text.append("\n");
                        assert(text@ =~= t1 + (rows_text(rv.take(j as int)) + line@ + "\n"@));
                    } else {
                        assert(line@ =~= Seq::<char>::empty());
                    }
                    j = j + 1;
                }
                assert(rv.take(rows@.len() as int) =~= rv);
                text.append("\n");
                assert(text@ =~= t0 + ("Sheet: "@ + sheets@[i as int].0@ + "\n"@ + rows_text(rv) + "\n"@));
            },
            None => {
                assert(t0 + Seq::<char>::empty() =~= t0);
            },
        }
        i = i + 1;
    }
    assert(sv.take(sheets@.len() as int) =~= sv);
    text
}

/// The content of a workbook whose sheets the caller read (calamine's `Xlsx`, which panics
/// on some sheets and so is called where a panic can be caught): each readable sheet's name
/// and its rows, normalized, as one text part; a read error as it came.
pub fn workbook_contents(sheets: Result<Vec<(String, Option<Vec<Vec<String>>>)>, String>) -> (r: Result<Vec<ExtractedContent>, String>)
    ensures
        sheets matches Err(e) ==> r == Err::<Vec<ExtractedContent>, String>(e),
        sheets matches Ok(ss) ==> r is Ok && one_text(r->Ok_0@, normalize_spec(xlsx_raw_text(sheets_view(ss@)))),
{
    match sheets {
        Err(e) => Err(e),
        Ok(ss) => {
            let raw = xlsx_text(&ss);
            let text = normalize_text(raw.as_str());
            let mut v: Vec<ExtractedContent> = Vec::new();
            v.push(ExtractedContent::Text(text));
            Ok(v)
        },
    }
}


} // verus!

verus! {

// ---- PDF pages ----
/// The walk over rendered pages: the pages kept so far (by position) and the hash of the
/// last one kept. A page with a zero side is skipped; so is a page whose image hash is that
/// of the page kept just before it.
pub open spec fn page_walk(pages: Seq<(u32, u32, u64)>, n: int) -> (Seq<int>, Option<u64>)
    decreases n,
{
    if n <= 0 {
        (Seq::empty(), None)
    } else {
        let (kept, last) = page_walk(pages, n - 1);
        let p = pages[n - 1];
        if p.0 == 0 || p.1 == 0 {
            (kept, last)
        } else if last == Some(p.2) {
            (kept, last)
        } else {
            (kept.push(n - 1), Some(p.2))
        }
    }
}

/// The positions of the pages that are kept, in order.
pub open spec fn kept_pages(pages: Seq<(u32, u32, u64)>) -> Seq<int> {
    page_walk(pages, pages.len() as int).0
}

/// The positions of the rendered pages (width, height, hash of the JPEG image) that become
/// images: those with both sides non-zero that are not a repeat of the page kept before.
pub fn select_pages(pages: &Vec<(u32, u32, u64)>) -> (r: Vec<usize>)
    ensures
        r@.len() == kept_pages(pages@).len(),
        forall|k: int| 0 <= k < r@.len() ==> r@[k] as int == #[trigger] kept_pages(pages@)[k],
{
    let mut kept: Vec<usize> = Vec::new();
    let mut last: Option<u64> = None;
    let mut i: usize = 0;
    while i < pages.len()
        invariant
            i <= pages@.len(),
            kept@.len() == page_walk(pages@, i as int).0.len(),
            forall|k: int| 0 <= k < kept@.len() ==> kept@[k] as int == #[trigger] page_walk(pages@, i as int).0[k],
            last == page_walk(pages@, i as int).1,
        decreases pages@.len() - i,
    {
        let (w, h, hash) = pages[i];
        if w == 0 || h == 0 {
        } else if last == Some(hash) {
        } else {
            kept.push(i);
            last = Some(hash);
        }
        i = i + 1;
    }
    kept
}

/// The file name of a page's image: its number from one, and a fresh id.
pub open spec fn page_file_name(number: nat, id: Seq<char>) -> Seq<char> {
    "page_"@ + decimal_text(number) + "_"@ + id + ".jpg"@
}

/// The content part for a kept page: a JPEG image in the output directory, named by its page
/// number and some id, with the page's sides.
pub open spec fn page_image(c: ExtractedContent, dir: Seq<char>, page: int, w: u32, h: u32) -> bool {
    &&& c matches ExtractedContent::ImageFile { path, name, format, dimensions }
    &&& path@ == dir
    &&& exists|id: Seq<char>| name@ == #[trigger] page_file_name((page + 1) as nat, id)
    &&& format@ == "jpeg"@
    &&& dimensions == Some((w, h))
}

/// One content part per kept page, in order, each named with a fresh id. A document that
/// rendered to no page at all is refused.
pub fn pdf_page_contents(output_dir: &str, pages: &Vec<(u32, u32, u64)>) -> (r: Result<Vec<ExtractedContent>, String>)
    requires
        pages@.len() < usize::MAX,
    ensures
        pages@.len() == 0 ==> r is Err && r->Err_0@ == "PDF document has no pages"@,
        pages@.len() > 0 ==> r is Ok && r->Ok_0@.len() == kept_pages(pages@).len() && (forall|k: int|
            0 <= k < r->Ok_0@.len() ==> page_image(
                #[trigger] r->Ok_0@[k],
                output_dir@,
                kept_pages(pages@)[k],
                pages@[kept_pages(pages@)[k]].0,
                pages@[kept_pages(pages@)[k]].1,
            )),
{
    if pages.len() == 0 {
        return Err(String::from_str("PDF document has no pages"));
    }
    let kept = select_pages(pages);
    let ghost kp = kept_pages(pages@);
    proof {
        lemma_page_walk_bounds(pages@, pages@.len() as int);
    }
    let mut out: Vec<ExtractedContent> = Vec::new();
    let mut k: usize = 0;
    while k < kept.len()
        invariant
            kp == kept_pages(pages@),
            kept@.len() == kp.len(),
            forall|j: int| 0 <= j < kept@.len() ==> kept@[j] as int == #[trigger] kp[j],
            forall|j: int| 0 <= j < kp.len() ==> 0 <= #[trigger] kp[j] < pages@.len(),
            pages@.len() < usize::MAX,
            k <= kept@.len(),
            out@.len() == k,
            forall|j: int| 0 <= j < k ==> page_image(#[trigger] out@[j], output_dir@, kp[j], pages@[kp[j]].0, pages@[kp[j]].1),
        decreases kept@.len() - k,
    {
        let p = kept[k];
        assert(kp[k as int] == p as int);
        let (w, h, _) = pages[p];
        let id = new_uuid();
        let number = u64_to_string((p + 1) as u64);
        let name = concat3(concat3("page_", number.as_str(), "_").as_str(), id.as_str(), ".jpg");
        let c = ExtractedContent::ImageFile {
            path: str_to_string(output_dir),
            name,
            format: String::from_str("jpeg"),
            dimensions: Some((w, h)),
        };
        proof {
            reveal_strlit("jpeg");
            assert(c->name@ =~= page_file_name((p + 1) as nat, id@));
        }
        out.push(c);
        k = k + 1;
    }
    Ok(out)
}

/// Every kept position is a page of the document.
pub proof fn lemma_page_walk_bounds(pages: Seq<(u32, u32, u64)>, n: int)
    requires
        0 <= n <= pages.len(),
    ensures
        forall|j: int| 0 <= j < page_walk(pages, n).0.len() ==> 0 <= #[trigger] page_walk(pages, n).0[j] < n,
    decreases n,
{
    if n > 0 {
        lemma_page_walk_bounds(pages, n - 1);
        let prev = page_walk(pages, n - 1).0;
        assert forall|j: int| 0 <= j < page_walk(pages, n).0.len() implies 0 <= #[trigger] page_walk(
            pages,
            n,
        ).0[j] < n by {
            if j < prev.len() {
                assert(page_walk(pages, n).0[j] == prev[j]);
            }
        }
    }
}

// ---- JPEG images ----
/// The message that carries a processed image: a user message whose one content part is the
/// image as a base64 JPEG data URL, in high detail.
pub open spec fn image_message(encoded: Seq<char>) -> JsonV {
    JsonV::Object(
        seq![
            ("role"@, JsonV::Str("user"@)),
            ("content"@, JsonV::Array(seq![JsonV::Object(seq![
                ("type"@, JsonV::Str("image_url"@)),
                ("image_url"@, JsonV::Object(seq![
                    ("url"@, JsonV::Str("data:image/jpeg;base64,"@ + encoded)),
                    ("detail"@, JsonV::Str("high"@)),
                ])),
            ])])),
        ],
    )
}

impl JpegExtractor {
    /// What the extractor returns for a processed image: the image message, as compact JSON.
    pub fn image_response(&self, processed: &[u8]) -> (r: String)
        ensures
            r@ == serde_json_text(image_message(base64_standard(processed@))),
    {
        let encoded = encode_base64(processed);
        let url = concat2("data:image/jpeg;base64,", encoded.as_str());
        let image_url = jobj2("url", Json::Str(url), "detail", json_string("high"));
        let part = jobj2("type", json_string("image_url"), "image_url", image_url);
        let msg = jobj2("role", json_string("user"), "content", jarr1(part));
        json_to_string(&msg)
    }
}

// ---- choosing the extractor ----
/// The position, in the default factory, of the extractor that takes an extension.
pub open spec fn extension_kind(ext: Seq<char>) -> Option<int> {
    if seq!["pdf"@].contains(ext) {
        Some(0)
    } else if seq!["docx"@, "doc"@].contains(ext) {
        Some(1)
    } else if seq!["xlsx"@, "xls"@].contains(ext) {
        Some(2)
    } else if seq!["jpg"@, "jpeg"@].contains(ext) {
        Some(3)
    } else {
        None
    }
}

/// In a list of PDF, Word, Excel and JPEG extractors, the first that takes an extension is
/// the one `extension_kind` names.
pub proof fn lemma_default_order(es: Seq<ExtractorKind>, ext: Seq<char>)
    requires
        es.len() == 4,
        es[0] is Pdf,
        es[1] is Docx,
        es[2] is Xlsx,
        es[3] is Jpeg,
    ensures
        first_taking(es, ext, 0) == extension_kind(ext),
{
    reveal_with_fuel(first_taking, 5);
}

/// What extracting a document gives: its contents where they are read here, or which
/// outside work comes next (rendering a PDF's pages, processing an image).
#[derive(Debug)]
pub enum Extraction {
    /// A Word document: the caller reads its body, then `word_contents` makes its content.
    ReadWord,
    /// A workbook: the caller reads its sheets, then `workbook_contents` makes its content.
    ReadWorkbook,
    /// A PDF: the caller renders its pages, then `pdf_page_contents` names them.
    RenderPdf,
    /// A JPEG image within the size limit: the caller scales and encodes it, then
    /// `JpegExtractor::image_response` makes the message.
    ProcessImage,
}

/// Extracts a document by its extension, with the default extractors and configuration.
pub fn extract_text_from_document(content: &[u8], extension: &str) -> (r: Result<Extraction, String>)
    ensures
        extension_kind(extension@) is None ==> r is Err && r->Err_0@ == "Unsupported file format: "@ + extension@,
        extension_kind(extension@) == Some(0int) ==> r matches Ok(Extraction::RenderPdf),
        extension_kind(extension@) == Some(1int) ==> (if zip_opens(content@) {
            r matches Ok(Extraction::ReadWord)
        } else {
            r is Err && r->Err_0@ == not_an_archive_text()
        }),
        extension_kind(extension@) == Some(2int) ==> r matches Ok(Extraction::ReadWorkbook),
        extension_kind(extension@) == Some(3int) ==> (if content@.len() > 20 * 2048 * 2048 {
            r is Err && r->Err_0@ == "Image size exceeds 20MB limit"@
        } else {
            r matches Ok(Extraction::ProcessImage)
        }),
{
    let factory = DocumentExtractorFactory::default();
    let config = ExtractorConfig::default();
    proof {
        lemma_default_order(factory.extractors@, extension@);
    }
    match factory.get_extractor(extension) {
        None => Err(concat2("Unsupported file format: ", extension)),
        Some(ExtractorKind::Pdf(e)) => e.extract(content, &config),
        Some(ExtractorKind::Docx(e)) => e.extract(content, &config),
        Some(ExtractorKind::Xlsx(e)) => e.extract(content, &config),
        Some(ExtractorKind::Jpeg(e)) => e.extract(content, &config),
    }
}


/// What holds of the walk over the first `n` pages.
pub open spec fn walk_sound(pages: Seq<(u32, u32, u64)>, n: int) -> bool {
    let (kept, last) = page_walk(pages, n);
    &&& forall|j: int, k: int| 0 <= j < k < kept.len() ==> #[trigger] kept[j] < #[trigger] kept[k]
    &&& forall|j: int|
        0 <= j < kept.len() ==> 0 <= #[trigger] kept[j] < n && pages[kept[j]].0 != 0 && pages[kept[j]].1 != 0
    &&& forall|j: int| 0 < j < kept.len() ==> pages[#[trigger] kept[j - 1]].2 != pages[kept[j]].2
    &&& last == (if kept.len() == 0 { None } else { Some(pages[kept.last()].2) })
}

proof fn lemma_walk_sound(pages: Seq<(u32, u32, u64)>, n: int)
    requires
        0 <= n <= pages.len(),
    ensures
        walk_sound(pages, n),
    decreases n,
{
    if n > 0 {
        lemma_walk_sound(pages, n - 1);
        let (kept0, last0) = page_walk(pages, n - 1);
        let (kept, last) = page_walk(pages, n);
        if kept.len() == kept0.len() + 1 {
            assert(kept == kept0.push(n - 1));
            assert forall|j: int| 0 < j < kept.len() implies pages[#[trigger] kept[j - 1]].2 != pages[kept[j]].2 by {
                if j < kept0.len() {
                    assert(kept[j - 1] == kept0[j - 1]);
                    assert(kept[j] == kept0[j]);
                } else {
                    assert(kept[j - 1] == kept0.last());
                }
            }
            assert forall|j: int, k: int| 0 <= j < k < kept.len() implies #[trigger] kept[j] < #[trigger] kept[k] by {
                if k < kept0.len() {
                    assert(kept[j] == kept0[j]);
                    assert(kept[k] == kept0[k]);
                } else {
                    assert(kept[j] == kept0[j]);
                }
            }
            assert forall|j: int| 0 <= j < kept.len() implies 0 <= #[trigger] kept[j] < n && pages[kept[j]].0 != 0
                && pages[kept[j]].1 != 0 by {
                if j < kept0.len() {
                    assert(kept[j] == kept0[j]);
                }
            }
        }
    }
}

/// The pages kept are in document order; each has both sides non-zero; none has the image
/// hash of the page kept just before it; and the walk remembers the hash of the last page
/// kept.
pub proof fn law_kept_pages(pages: Seq<(u32, u32, u64)>)
    ensures
        walk_sound(pages, pages.len() as int),
{
    lemma_walk_sound(pages, pages.len() as int);
}

} // verus!
