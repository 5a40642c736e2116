use bpa_analysis::extractors::{
    word_contents, workbook_contents, docx_text, extract_text_from_document, normalize_text, pdf_page_contents, select_pages, xlsx_text,
    DocBlock, DocumentExtractor, DocumentExtractorFactory, DocxExtractor, Extraction, ExtractorConfig,
    ExtractorKind, JpegExtractor, ParaPart, PdfExtractor, RunPart, XlsxExtractor,
};
use bpa_analysis::pipeline::ExtractedContent;

fn test_config() -> ExtractorConfig {
    ExtractorConfig { output_dir: "test_output".to_string(), image_quality: 85, max_image_dimension: 2048 }
}

fn docx_bytes(doc: docx_rs::Docx) -> Vec<u8> {
    let mut cursor = std::io::Cursor::new(Vec::new());
    doc.pack(&mut cursor).unwrap();
    cursor.into_inner()
}

#[test]
fn test_docx_extractor_extensions() {
    let extractor = DocxExtractor;
    assert_eq!(extractor.get_supported_extensions(), vec!["docx", "doc"]);
}

#[test]
fn test_empty_document() {
    let extractor = DocxExtractor;
    let config = ExtractorConfig { output_dir: "test_output".to_string(), image_quality: 85, max_image_dimension: 2048 };
    let result = extractor.extract(&[], &config);
    assert!(result.is_err());
}

#[test]
fn other_extractors_name_their_extensions() {
    assert_eq!(XlsxExtractor.get_supported_extensions(), vec!["xlsx", "xls"]);
    assert_eq!(PdfExtractor.get_supported_extensions(), vec!["pdf"]);
    assert_eq!(JpegExtractor::default().get_supported_extensions(), vec!["jpg", "jpeg"]);
}

#[test]
fn documents_that_are_not_paged_count_one_page() {
    assert_eq!(DocxExtractor.count_pages(b"anything"), Ok(1));
    assert_eq!(XlsxExtractor.count_pages(&[]), Ok(1));
}

#[test]
fn default_configurations() {
    let c = ExtractorConfig::default();
    assert_eq!(c.output_dir, "./extracted_content");
    assert_eq!(c.image_quality, 85);
    assert_eq!(c.max_image_dimension, 2048);
    let j = JpegExtractor::default();
    assert_eq!(j.max_size, 20 * 2048 * 2048);
    assert_eq!(j.max_dimension, 2048);
    assert_eq!(j.jpeg_quality, 80);
    assert_eq!(j.output_dir, "./processed_images");
    let k = JpegExtractor::with_output_dir("./elsewhere".to_string());
    assert_eq!(k.output_dir, "./elsewhere");
    assert_eq!(k.max_size, 20 * 2048 * 2048);
    assert_eq!(k.jpeg_quality, 80);
}

#[test]
fn factory_finds_the_extractor_of_an_extension() {
    let f = DocumentExtractorFactory::default();
    assert!(matches!(f.get_extractor("pdf"), Some(ExtractorKind::Pdf(_))));
    assert!(matches!(f.get_extractor("doc"), Some(ExtractorKind::Docx(_))));
    assert!(matches!(f.get_extractor("docx"), Some(ExtractorKind::Docx(_))));
    assert!(matches!(f.get_extractor("xls"), Some(ExtractorKind::Xlsx(_))));
    assert!(matches!(f.get_extractor("jpg"), Some(ExtractorKind::Jpeg(_))));
    assert!(matches!(f.get_extractor("jpeg"), Some(ExtractorKind::Jpeg(_))));
    assert!(f.get_extractor("txt").is_none());
    assert!(f.get_extractor("PDF").is_none());
}

#[test]
fn unsupported_extension_is_refused() {
    match extract_text_from_document(b"hello", "txt") {
        Err(m) => assert_eq!(m, "Unsupported file format: txt"),
        Ok(_) => panic!("a text file has no extractor"),
    }
}

#[test]
fn pdf_and_jpeg_hand_the_work_on() {
    assert!(matches!(extract_text_from_document(b"%PDF", "pdf"), Ok(Extraction::RenderPdf)));
    assert!(matches!(extract_text_from_document(&[0u8; 100], "jpg"), Ok(Extraction::ProcessImage)));
}

#[test]
fn pdf_and_jpeg_extractors_say_what_comes_next() {
    assert!(matches!(PdfExtractor.extract(b"%PDF", &test_config()), Ok(Extraction::RenderPdf)));
    assert!(matches!(JpegExtractor::default().extract(&[1, 2, 3], &test_config()), Ok(Extraction::ProcessImage)));
    let small = JpegExtractor { max_size: 2, max_dimension: 10, jpeg_quality: 50, output_dir: "x".to_string() };
    assert!(matches!(small.extract(&[1, 2, 3], &test_config()), Err(m) if m == "Image size exceeds 20MB limit"));
}

#[test]
fn image_over_the_limit_is_refused() {
    let j = JpegExtractor::default();
    assert!(j.check_size(20 * 2048 * 2048).is_ok());
    assert_eq!(j.check_size(20 * 2048 * 2048 + 1), Err("Image size exceeds 20MB limit".to_string()));
}

#[test]
fn text_is_normalized_line_by_line() {
    assert_eq!(normalize_text("  first line  \n\n\t\n second\t \nthird"), "first line\nsecond\nthird");
    assert_eq!(normalize_text(""), "");
    assert_eq!(normalize_text(" \n \n"), "");
}

#[test]
fn word_body_text_marks_tables() {
    let blocks = vec![
        DocBlock::Paragraph(vec![
            ParaPart::Run(vec![RunPart::Text("Hello, ".to_string()), RunPart::Other, RunPart::Text("world".to_string())]),
            ParaPart::Other,
        ]),
        DocBlock::Paragraph(vec![ParaPart::Run(vec![RunPart::Text("   ".to_string())])]),
        DocBlock::Table(vec![100, 200, 300]),
        DocBlock::Other,
        DocBlock::Paragraph(vec![ParaPart::Run(vec![RunPart::Text("end".to_string())])]),
    ];
    let raw = docx_text(&blocks);
    assert_eq!(raw, "Hello, world\n\n[TABLE]\nColumns: 3\n[/TABLE]\nend\n");
    assert_eq!(normalize_text(&raw), "Hello, world\n[TABLE]\nColumns: 3\n[/TABLE]\nend");
}

#[test]
fn workbook_text_keeps_nonempty_cells() {
    let sheets = vec![
        (
            "Data".to_string(),
            Some(vec![
                vec!["a".to_string(), "".to_string(), "b".to_string()],
                vec!["".to_string(), "".to_string()],
                vec!["1".to_string()],
            ]),
        ),
        ("Broken".to_string(), None),
        ("Empty".to_string(), Some(vec![])),
    ];
    let raw = xlsx_text(&sheets);
    assert_eq!(raw, "Sheet: Data\na\tb\n1\n\nSheet: Empty\n\n");
    assert_eq!(normalize_text(&raw), "Sheet: Data\na\tb\n1\nSheet: Empty");
}

#[test]
fn pdf_pages_skip_empty_and_repeated_images() {
    let pages = vec![(10, 20, 1u64), (0, 5, 2), (10, 20, 1), (30, 40, 3), (30, 40, 3), (5, 0, 4), (1, 1, 1)];
    assert_eq!(select_pages(&pages), vec![0, 3, 6]);
    let contents = pdf_page_contents("out/dir", &pages).unwrap();
    assert_eq!(contents.len(), 3);
    let expected = [(1, 10, 20), (4, 30, 40), (7, 1, 1)];
    for (c, (number, w, h)) in contents.iter().zip(expected.iter()) {
        match c {
            ExtractedContent::ImageFile { path, name, format, dimensions } => {
                assert_eq!(path, "out/dir");
                assert!(name.starts_with(&format!("page_{}_", number)));
                assert!(name.ends_with(".jpg"));
                assert_eq!(name.len(), format!("page_{}_", number).len() + 36 + 4);
                assert_eq!(format, "jpeg");
                assert_eq!(*dimensions, Some((*w, *h)));
            },
            other => panic!("expected an image, got {:?}", other),
        }
    }
}

#[test]
fn pdf_without_pages_is_refused() {
    assert_eq!(pdf_page_contents("out", &vec![]).unwrap_err(), "PDF document has no pages");
    assert_eq!(pdf_page_contents("out", &vec![(0, 0, 7)]).unwrap().len(), 0);
}

#[test]
fn image_message_carries_the_base64_image() {
    let text = JpegExtractor::default().image_response(&[1, 2, 3]);
    let v: serde_json::Value = serde_json::from_str(&text).unwrap();
    assert_eq!(v["role"], "user");
    assert_eq!(v["content"][0]["type"], "image_url");
    assert_eq!(v["content"][0]["image_url"]["url"], "data:image/jpeg;base64,AQID");
    assert_eq!(v["content"][0]["image_url"]["detail"], "high");
    assert!(text.starts_with("{\"role\":\"user\",\"content\":[{\"type\":\"image_url\""));
}

fn doc_block(c: docx_rs::DocumentChild) -> DocBlock {
    match c {
        docx_rs::DocumentChild::Paragraph(p) => DocBlock::Paragraph(
            p.children
                .into_iter()
                .map(|c| match c {
                    docx_rs::ParagraphChild::Run(r) => ParaPart::Run(
                        r.children
                            .into_iter()
                            .map(|x| match x {
                                docx_rs::RunChild::Text(t) => RunPart::Text(t.text),
                                _ => RunPart::Other,
                            })
                            .collect(),
                    ),
                    _ => ParaPart::Other,
                })
                .collect(),
        ),
        docx_rs::DocumentChild::Table(t) => DocBlock::Table(t.grid),
        _ => DocBlock::Other,
    }
}

#[test]
fn word_document_read_by_docx_rs_becomes_text() {
    let doc = docx_rs::Docx::new()
        .add_paragraph(docx_rs::Paragraph::new().add_run(docx_rs::Run::new().add_text("  Hello")))
        .add_paragraph(docx_rs::Paragraph::new())
        .add_table(
            docx_rs::Table::new(vec![docx_rs::TableRow::new(vec![docx_rs::TableCell::new(), docx_rs::TableCell::new()])])
                .set_grid(vec![100, 200]),
        )
        .add_paragraph(docx_rs::Paragraph::new().add_run(docx_rs::Run::new().add_text("World")));
    let bytes = docx_bytes(doc);
    assert!(matches!(DocxExtractor.extract(&bytes, &test_config()), Ok(Extraction::ReadWord)));
    assert!(matches!(extract_text_from_document(&bytes, "docx"), Ok(Extraction::ReadWord)));
    let body = docx_rs::read_docx(&bytes).unwrap().document.children.into_iter().map(doc_block).collect();
    let parts = word_contents(Ok(body)).unwrap();
    assert_eq!(parts.len(), 1);
    match &parts[0] {
        ExtractedContent::Text(t) => assert_eq!(t, "Hello\n[TABLE]\nColumns: 2\n[/TABLE]\nWorld"),
        other => panic!("expected text, got {:?}", other),
    }
    assert_eq!(word_contents(Err("Failed to parse int.".to_string())).err(), Some("Failed to parse int.".to_string()));
}

#[test]
fn bytes_that_are_no_archive_are_refused_with_the_text_of_docx_rs() {
    let bytes: &[u8] = b"not an archive";
    let expected = docx_rs::read_docx(bytes).err().unwrap().to_string();
    assert_eq!(expected, "Failed to read from zip.");
    assert_eq!(DocxExtractor.extract(bytes, &test_config()).err(), Some(expected.clone()));
    assert_eq!(extract_text_from_document(bytes, "docx").err(), Some(expected));
}

#[test]
fn workbook_sheets_become_text() {
    assert!(matches!(XlsxExtractor.extract(b"anything", &test_config()), Ok(Extraction::ReadWorkbook)));
    assert!(matches!(extract_text_from_document(b"anything", "xlsx"), Ok(Extraction::ReadWorkbook)));
    let sheets = vec![("Data".to_string(), Some(vec![vec!["a".to_string(), "".to_string(), "b".to_string()]])), ("Broken".to_string(), None)];
    let parts = workbook_contents(Ok(sheets)).unwrap();
    assert!(matches!(&parts[0], ExtractedContent::Text(t) if t == "Sheet: Data\na\tb"));
    let opened: Result<calamine::Xlsx<std::io::Cursor<&[u8]>>, _> = calamine::Reader::new(std::io::Cursor::new(&b"not a workbook"[..]));
    let error = opened.err().unwrap().to_string();
    assert_eq!(workbook_contents(Err(error.clone())).err(), Some(error));
}
