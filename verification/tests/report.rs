use prism_llae::report::{
    build_sheet, col_letter, esc, merges, num_cell, package, str_cell, Merge, Row,
};

fn text(s: &str) -> String {
    s.to_string()
}

fn sample_rows() -> Vec<Row> {
    vec![
        Row {
            rate: 48000,
            backend: text("WASAPI"),
            mode: text("shared"),
            req_format: text("auto"),
            act_format: text("f32"),
            req_block: 0,
            act_block: 480,
            min_f: 2700,
            median_f: 2726,
            mean_f: text("2726.5"),
            max_f: 2760,
            min_ms: text("56.250"),
            median_ms: text("56.792"),
            mean_ms: text("56.802"),
            max_ms: text("57.500"),
            jitter: 60,
        },
        Row {
            rate: 48000,
            backend: text("WASAPI"),
            mode: text("exclusive"),
            req_format: text("i16"),
            act_format: text("i16"),
            req_block: 0,
            act_block: 144,
            min_f: 455,
            median_f: 455,
            mean_f: text("455"),
            max_f: 455,
            min_ms: text("9.479"),
            median_ms: text("9.479"),
            mean_ms: text("9.479"),
            max_ms: text("9.479"),
            jitter: 0,
        },
        Row {
            rate: 48000,
            backend: text("WASAPI"),
            mode: text("exclusive"),
            req_format: text("i16"),
            act_format: text("i16"),
            req_block: 128,
            act_block: 160,
            min_f: 456,
            median_f: 456,
            mean_f: text("456"),
            max_f: 457,
            min_ms: text("9.500"),
            median_ms: text("9.500"),
            mean_ms: text("9.500"),
            max_ms: text("9.521"),
            jitter: 1,
        },
        Row {
            rate: 96000,
            backend: text("ASIO"),
            mode: text("-"),
            req_format: text("auto"),
            act_format: text("i32/24"),
            req_block: 8,
            act_block: 8,
            min_f: 79,
            median_f: 79,
            mean_f: text("79"),
            max_f: 79,
            min_ms: text("0.823"),
            median_ms: text("0.823"),
            mean_ms: text("0.823"),
            max_ms: text("0.823"),
            jitter: 0,
        },
    ]
}

fn sample_notes() -> Vec<String> {
    vec![text("Tested on"), text("CPU: A & B <x>"), text("")]
}

#[test]
fn sheet_of_four_runs() {
    let expected = r#"<?xml version="1.0" encoding="UTF-8" standalone="yes"?><worksheet xmlns="http://schemas.openxmlformats.org/spreadsheetml/2006/main" xmlns:r="http://schemas.openxmlformats.org/officeDocument/2006/relationships"><sheetPr><outlinePr summaryBelow="0" summaryRight="0"/></sheetPr><sheetViews><sheetView workbookViewId="0"><pane ySplit="1" topLeftCell="A2" activePane="bottomLeft" state="frozen"/><selection pane="bottomLeft" activeCell="A2" sqref="A2"/></sheetView></sheetViews><sheetFormatPr customHeight="1" defaultColWidth="12.63" defaultRowHeight="15.75"/><cols><col customWidth="1" min="17" max="17" width="54.63"/></cols><sheetData><row r="1"><c r="A1" s="1" t="inlineStr"><is><t>rate</t></is></c><c r="B1" s="1" t="inlineStr"><is><t>backend</t></is></c><c r="C1" s="1" t="inlineStr"><is><t>mode</t></is></c><c r="D1" s="1" t="inlineStr"><is><t>req_format</t></is></c><c r="E1" s="1" t="inlineStr"><is><t>act_format</t></is></c><c r="F1" s="1" t="inlineStr"><is><t>req_block</t></is></c><c r="G1" s="1" t="inlineStr"><is><t>act_block</t></is></c><c r="H1" s="1" t="inlineStr"><is><t>min_frames</t></is></c><c r="I1" s="1" t="inlineStr"><is><t>median_frames</t></is></c><c r="J1" s="1" t="inlineStr"><is><t>mean_frames</t></is></c><c r="K1" s="1" t="inlineStr"><is><t>max_frames</t></is></c><c r="L1" s="2" t="inlineStr"><is><t>min_ms</t></is></c><c r="M1" s="2" t="inlineStr"><is><t>median_ms</t></is></c><c r="N1" s="2" t="inlineStr"><is><t>mean_ms</t></is></c><c r="O1" s="2" t="inlineStr"><is><t>max_ms</t></is></c><c r="P1" s="3" t="inlineStr"><is><t>jitter_frames</t></is></c><c r="Q1" s="3" t="inlineStr"><is><t>Notes</t></is></c></row><row r="2"><c r="A2" s="4"><v>48000</v></c><c r="B2" s="4" t="inlineStr"><is><t>WASAPI</t></is></c><c r="C2" s="5" t="inlineStr"><is><t>shared</t></is></c><c r="D2" s="5" t="inlineStr"><is><t>auto</t></is></c><c r="E2" s="5" t="inlineStr"><is><t>f32</t></is></c><c r="F2" s="5" t="inlineStr"><is><t>auto</t></is></c><c r="G2" s="5"><v>480</v></c><c r="H2" s="5"><v>2700</v></c><c r="I2" s="5"><v>2726</v></c><c r="J2" s="5"><v>2726.5</v></c><c r="K2" s="5"><v>2760</v></c><c r="L2" s="6"><v>56.250</v></c><c r="M2" s="6"><v>56.792</v></c><c r="N2" s="6"><v>56.802</v></c><c r="O2" s="6"><v>57.500</v></c><c r="P2" s="7"><v>60</v></c><c r="Q2" s="8" t="inlineStr"><is><t>Tested on</t></is></c></row><row r="3"><c r="C3" s="4" t="inlineStr"><is><t>exclusive</t></is></c><c r="D3" s="4" t="inlineStr"><is><t>i16</t></is></c><c r="E3" s="4" t="inlineStr"><is><t>i16</t></is></c><c r="F3" s="5" t="inlineStr"><is><t>auto</t></is></c><c r="G3" s="5"><v>144</v></c><c r="H3" s="5"><v>455</v></c><c r="I3" s="5"><v>455</v></c><c r="J3" s="5"><v>455</v></c><c r="K3" s="5"><v>455</v></c><c r="L3" s="6"><v>9.479</v></c><c r="M3" s="6"><v>9.479</v></c><c r="N3" s="6"><v>9.479</v></c><c r="O3" s="6"><v>9.479</v></c><c r="P3" s="7"><v>0</v></c><c r="Q3" s="9" t="inlineStr"><is><t>CPU: A &amp; B &lt;x&gt;</t></is></c></row><row r="4"><c r="A4" s="16"/><c r="B4" s="16"/><c r="C4" s="16"/><c r="D4" s="16"/><c r="E4" s="16"/><c r="F4" s="17"><v>128</v></c><c r="G4" s="17"><v>160</v></c><c r="H4" s="17"><v>456</v></c><c r="I4" s="17"><v>456</v></c><c r="J4" s="17"><v>456</v></c><c r="K4" s="17"><v>457</v></c><c r="L4" s="18"><v>9.500</v></c><c r="M4" s="18"><v>9.500</v></c><c r="N4" s="18"><v>9.500</v></c><c r="O4" s="18"><v>9.521</v></c><c r="P4" s="19"><v>1</v></c><c r="Q4" s="9"/></row><row r="5"><c r="A5" s="17"><v>96000</v></c><c r="B5" s="17" t="inlineStr"><is><t>ASIO</t></is></c><c r="C5" s="17" t="inlineStr"><is><t>-</t></is></c><c r="D5" s="17" t="inlineStr"><is><t>auto</t></is></c><c r="E5" s="17" t="inlineStr"><is><t>i32/24</t></is></c><c r="F5" s="17"><v>8</v></c><c r="G5" s="17"><v>8</v></c><c r="H5" s="17"><v>79</v></c><c r="I5" s="17"><v>79</v></c><c r="J5" s="17"><v>79</v></c><c r="K5" s="17"><v>79</v></c><c r="L5" s="18"><v>0.823</v></c><c r="M5" s="18"><v>0.823</v></c><c r="N5" s="18"><v>0.823</v></c><c r="O5" s="18"><v>0.823</v></c><c r="P5" s="19"><v>0</v></c><c r="Q5" s="19"/></row></sheetData><mergeCells count="5"><mergeCell ref="A2:A4"/><mergeCell ref="B2:B4"/><mergeCell ref="C3:C4"/><mergeCell ref="D3:D4"/><mergeCell ref="E3:E4"/></mergeCells><conditionalFormatting sqref="B1:B5"><cfRule type="cellIs" dxfId="0" priority="1" operator="equal"><formula>"WASAPI"</formula></cfRule></conditionalFormatting><conditionalFormatting sqref="B1:B5"><cfRule type="cellIs" dxfId="1" priority="2" operator="equal"><formula>"WDM/KS"</formula></cfRule></conditionalFormatting><conditionalFormatting sqref="B1:B5"><cfRule type="cellIs" dxfId="2" priority="3" operator="equal"><formula>"ASIO"</formula></cfRule></conditionalFormatting><conditionalFormatting sqref="C1:C5"><cfRule type="cellIs" dxfId="3" priority="4" operator="equal"><formula>"-"</formula></cfRule></conditionalFormatting><conditionalFormatting sqref="C1:C5"><cfRule type="cellIs" dxfId="4" priority="5" operator="equal"><formula>"shared"</formula></cfRule></conditionalFormatting><conditionalFormatting sqref="C1:C5"><cfRule type="cellIs" dxfId="2" priority="6" operator="equal"><formula>"exclusive"</formula></cfRule></conditionalFormatting><conditionalFormatting sqref="A2:A5"><cfRule type="colorScale" priority="7"><colorScale><cfvo type="min"/><cfvo type="percentile" val="50"/><cfvo type="max"/><color rgb="FFD9EAD3"/><color rgb="FFFFF2CC"/><color rgb="FFF4CCCC"/></colorScale></cfRule></conditionalFormatting><conditionalFormatting sqref="D1:E5"><cfRule type="cellIs" dxfId="5" priority="8" operator="equal"><formula>"auto"</formula></cfRule></conditionalFormatting><conditionalFormatting sqref="D1:E5"><cfRule type="cellIs" dxfId="0" priority="9" operator="equal"><formula>"i16"</formula></cfRule></conditionalFormatting><conditionalFormatting sqref="D1:E5"><cfRule type="cellIs" dxfId="1" priority="10" operator="equal"><formula>"i24"</formula></cfRule></conditionalFormatting><conditionalFormatting sqref="D1:E5"><cfRule type="cellIs" dxfId="2" priority="11" operator="equal"><formula>"i32"</formula></cfRule></conditionalFormatting><conditionalFormatting sqref="F1:F5"><cfRule type="cellIs" dxfId="5" priority="12" operator="equal"><formula>"auto"</formula></cfRule></conditionalFormatting><conditionalFormatting sqref="F1:G5"><cfRule type="colorScale" priority="13"><colorScale><cfvo type="min"/><cfvo type="percentile" val="50"/><cfvo type="max"/><color rgb="FFD9EAD3"/><color rgb="FFFFF2CC"/><color rgb="FFF4CCCC"/></colorScale></cfRule></conditionalFormatting><conditionalFormatting sqref="D1:E5"><cfRule type="cellIs" dxfId="6" priority="14" operator="equal"><formula>"i32/24"</formula></cfRule></conditionalFormatting><conditionalFormatting sqref="D1:E5"><cfRule type="cellIs" dxfId="5" priority="15" operator="equal"><formula>"f32"</formula></cfRule></conditionalFormatting><conditionalFormatting sqref="H2:K5"><cfRule type="colorScale" priority="16"><colorScale><cfvo type="min"/><cfvo type="percentile" val="50"/><cfvo type="max"/><color rgb="FFD9EAD3"/><color rgb="FFFFF2CC"/><color rgb="FFF4CCCC"/></colorScale></cfRule></conditionalFormatting><conditionalFormatting sqref="L2:O5"><cfRule type="colorScale" priority="17"><colorScale><cfvo type="min"/><cfvo type="percentile" val="50"/><cfvo type="max"/><color rgb="FFD9EAD3"/><color rgb="FFFFF2CC"/><color rgb="FFF4CCCC"/></colorScale></cfRule></conditionalFormatting><conditionalFormatting sqref="P2:P5"><cfRule type="cellIs" dxfId="2" priority="18" operator="equal"><formula>0</formula></cfRule></conditionalFormatting><conditionalFormatting sqref="P2:P5"><cfRule type="cellIs" dxfId="0" priority="19" operator="greaterThan"><formula>0</formula></cfRule></conditionalFormatting></worksheet>"#;
    assert_eq!(build_sheet(&sample_rows(), &sample_notes()), expected);
}

#[test]
fn sheet_without_runs() {
    let expected = r#"<?xml version="1.0" encoding="UTF-8" standalone="yes"?><worksheet xmlns="http://schemas.openxmlformats.org/spreadsheetml/2006/main" xmlns:r="http://schemas.openxmlformats.org/officeDocument/2006/relationships"><sheetPr><outlinePr summaryBelow="0" summaryRight="0"/></sheetPr><sheetViews><sheetView workbookViewId="0"><pane ySplit="1" topLeftCell="A2" activePane="bottomLeft" state="frozen"/><selection pane="bottomLeft" activeCell="A2" sqref="A2"/></sheetView></sheetViews><sheetFormatPr customHeight="1" defaultColWidth="12.63" defaultRowHeight="15.75"/><cols><col customWidth="1" min="17" max="17" width="54.63"/></cols><sheetData><row r="1"><c r="A1" s="1" t="inlineStr"><is><t>rate</t></is></c><c r="B1" s="1" t="inlineStr"><is><t>backend</t></is></c><c r="C1" s="1" t="inlineStr"><is><t>mode</t></is></c><c r="D1" s="1" t="inlineStr"><is><t>req_format</t></is></c><c r="E1" s="1" t="inlineStr"><is><t>act_format</t></is></c><c r="F1" s="1" t="inlineStr"><is><t>req_block</t></is></c><c r="G1" s="1" t="inlineStr"><is><t>act_block</t></is></c><c r="H1" s="1" t="inlineStr"><is><t>min_frames</t></is></c><c r="I1" s="1" t="inlineStr"><is><t>median_frames</t></is></c><c r="J1" s="1" t="inlineStr"><is><t>mean_frames</t></is></c><c r="K1" s="1" t="inlineStr"><is><t>max_frames</t></is></c><c r="L1" s="2" t="inlineStr"><is><t>min_ms</t></is></c><c r="M1" s="2" t="inlineStr"><is><t>median_ms</t></is></c><c r="N1" s="2" t="inlineStr"><is><t>mean_ms</t></is></c><c r="O1" s="2" t="inlineStr"><is><t>max_ms</t></is></c><c r="P1" s="3" t="inlineStr"><is><t>jitter_frames</t></is></c><c r="Q1" s="3" t="inlineStr"><is><t>Notes</t></is></c></row></sheetData><mergeCells count="0"></mergeCells><conditionalFormatting sqref="B1:B1"><cfRule type="cellIs" dxfId="0" priority="1" operator="equal"><formula>"WASAPI"</formula></cfRule></conditionalFormatting><conditionalFormatting sqref="B1:B1"><cfRule type="cellIs" dxfId="1" priority="2" operator="equal"><formula>"WDM/KS"</formula></cfRule></conditionalFormatting><conditionalFormatting sqref="B1:B1"><cfRule type="cellIs" dxfId="2" priority="3" operator="equal"><formula>"ASIO"</formula></cfRule></conditionalFormatting><conditionalFormatting sqref="C1:C1"><cfRule type="cellIs" dxfId="3" priority="4" operator="equal"><formula>"-"</formula></cfRule></conditionalFormatting><conditionalFormatting sqref="C1:C1"><cfRule type="cellIs" dxfId="4" priority="5" operator="equal"><formula>"shared"</formula></cfRule></conditionalFormatting><conditionalFormatting sqref="C1:C1"><cfRule type="cellIs" dxfId="2" priority="6" operator="equal"><formula>"exclusive"</formula></cfRule></conditionalFormatting><conditionalFormatting sqref="A2:A1"><cfRule type="colorScale" priority="7"><colorScale><cfvo type="min"/><cfvo type="percentile" val="50"/><cfvo type="max"/><color rgb="FFD9EAD3"/><color rgb="FFFFF2CC"/><color rgb="FFF4CCCC"/></colorScale></cfRule></conditionalFormatting><conditionalFormatting sqref="D1:E1"><cfRule type="cellIs" dxfId="5" priority="8" operator="equal"><formula>"auto"</formula></cfRule></conditionalFormatting><conditionalFormatting sqref="D1:E1"><cfRule type="cellIs" dxfId="0" priority="9" operator="equal"><formula>"i16"</formula></cfRule></conditionalFormatting><conditionalFormatting sqref="D1:E1"><cfRule type="cellIs" dxfId="1" priority="10" operator="equal"><formula>"i24"</formula></cfRule></conditionalFormatting><conditionalFormatting sqref="D1:E1"><cfRule type="cellIs" dxfId="2" priority="11" operator="equal"><formula>"i32"</formula></cfRule></conditionalFormatting><conditionalFormatting sqref="F1:F1"><cfRule type="cellIs" dxfId="5" priority="12" operator="equal"><formula>"auto"</formula></cfRule></conditionalFormatting><conditionalFormatting sqref="F1:G1"><cfRule type="colorScale" priority="13"><colorScale><cfvo type="min"/><cfvo type="percentile" val="50"/><cfvo type="max"/><color rgb="FFD9EAD3"/><color rgb="FFFFF2CC"/><color rgb="FFF4CCCC"/></colorScale></cfRule></conditionalFormatting><conditionalFormatting sqref="D1:E1"><cfRule type="cellIs" dxfId="6" priority="14" operator="equal"><formula>"i32/24"</formula></cfRule></conditionalFormatting><conditionalFormatting sqref="D1:E1"><cfRule type="cellIs" dxfId="5" priority="15" operator="equal"><formula>"f32"</formula></cfRule></conditionalFormatting><conditionalFormatting sqref="H2:K1"><cfRule type="colorScale" priority="16"><colorScale><cfvo type="min"/><cfvo type="percentile" val="50"/><cfvo type="max"/><color rgb="FFD9EAD3"/><color rgb="FFFFF2CC"/><color rgb="FFF4CCCC"/></colorScale></cfRule></conditionalFormatting><conditionalFormatting sqref="L2:O1"><cfRule type="colorScale" priority="17"><colorScale><cfvo type="min"/><cfvo type="percentile" val="50"/><cfvo type="max"/><color rgb="FFD9EAD3"/><color rgb="FFFFF2CC"/><color rgb="FFF4CCCC"/></colorScale></cfRule></conditionalFormatting><conditionalFormatting sqref="P2:P1"><cfRule type="cellIs" dxfId="2" priority="18" operator="equal"><formula>0</formula></cfRule></conditionalFormatting><conditionalFormatting sqref="P2:P1"><cfRule type="cellIs" dxfId="0" priority="19" operator="greaterThan"><formula>0</formula></cfRule></conditionalFormatting></worksheet>"#;
    assert_eq!(build_sheet(&[], &[]), expected);
}

#[test]
fn merged_runs_of_the_sample() {
    let found = merges(&sample_rows());
    let expected = vec![
        Merge { col: 0, first: 0, last: 2 },
        Merge { col: 1, first: 0, last: 2 },
        Merge { col: 2, first: 1, last: 2 },
        Merge { col: 3, first: 1, last: 2 },
        Merge { col: 4, first: 1, last: 2 },
    ];
    assert_eq!(found, expected);
    // merged cells lie in the sheet and do not overlap
    for (i, a) in found.iter().enumerate() {
        assert!(a.col < 5 && a.first < a.last && a.last < 4);
        for b in &found[i + 1..] {
            assert!(a.col != b.col || a.last < b.first);
        }
    }
}

#[test]
fn cells_are_escaped() {
    assert_eq!(col_letter(0), 'A');
    assert_eq!(col_letter(16), 'Q');
    assert_eq!(esc("a&b<c>d\"e"), "a&amp;b&lt;c&gt;d\"e");
    assert_eq!(esc("&amp;"), "&amp;amp;");
    assert_eq!(num_cell('G', 12, 4, "3.5"), r#"<c r="G12" s="4"><v>3.5</v></c>"#);
    assert_eq!(
        str_cell('B', 2, 17, "WDM/KS & co"),
        r#"<c r="B2" s="17" t="inlineStr"><is><t>WDM/KS &amp; co</t></is></c>"#
    );
}

#[test]
fn package_holds_every_part() {
    let bytes = package(&sample_rows(), &sample_notes(), "<styles/>", "<theme/>");
    let sheet = build_sheet(&sample_rows(), &sample_notes());
    let find = |needle: &[u8]| bytes.windows(needle.len()).filter(|w| *w == needle).count();
    // once beside its data and once in the directory
    for name in [
        "[Content_Types].xml",
        "_rels/.rels",
        "xl/workbook.xml",
        "xl/_rels/workbook.xml.rels",
        "xl/styles.xml",
        "xl/theme/theme1.xml",
        "xl/worksheets/sheet1.xml",
    ] {
        assert!(find(name.as_bytes()) >= 2, "{name}");
    }
    assert_eq!(find(sheet.as_bytes()), 1);
    assert_eq!(find(b"<styles/>"), 1);
    assert_eq!(find(b"<theme/>"), 1);
    assert_eq!(&bytes[bytes.len() - 22..bytes.len() - 18], &[0x50, 0x4b, 0x05, 0x06]);
    assert_eq!(&bytes[bytes.len() - 12..bytes.len() - 10], &[7, 0]);
}
