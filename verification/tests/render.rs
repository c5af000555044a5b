//! Pictures: points, lines that fit, and layouts.

use holocubic::canvas::{
    centre_picture, check_size, encode_jpeg, icon_fault, render_image_frame, Canvas, Region,
    SCREEN_H, SCREEN_W,
};
use holocubic::json::{read, Json};
use holocubic::outside::Rgba;
use holocubic::render::{font_candidates, render_text_frame, task_labels, Frame, Place, Shape};
use holocubic::sheet::render_calendar_pages;
use holocubic::wrap::{fit_body, fit_single_line_font, wrap_text};

/// A measure by which every letter is half as wide as it is high.
fn fits(size: u32, _bold: bool, limit: u32, text: &str) -> bool {
    text.chars().count() as u32 * size <= 2 * limit
}

fn draw(frame: &Frame) -> Canvas {
    let mut canvas = Canvas::screen(frame.ground);
    for shape in &frame.shapes {
        if let Shape::Fill(region, color) = shape {
            canvas.fill(*region, *color);
        }
    }
    canvas
}

fn point(canvas: &Canvas, x: usize, y: usize) -> (u8, u8, u8) {
    let i = 3 * (y * canvas.width as usize + x);
    (canvas.pixels[i], canvas.pixels[i + 1], canvas.pixels[i + 2])
}

#[test]
fn jpeg_is_exact_screen_size() {
    let frame = Canvas::screen((0, 0, 0));
    let jpeg = encode_jpeg(&frame).unwrap();
    let decoded = image::load_from_memory(&jpeg).unwrap();
    assert_eq!((decoded.width(), decoded.height()), (SCREEN_W, SCREEN_H));
    assert!(jpeg.len() < 20_000);
}

#[test]
fn task_labels_are_sparse_black() {
    let frame = task_labels(&fits, "良率数据核对", "先核对口径，再核对数据");
    let raw = encode_jpeg(&draw(&frame)).unwrap();
    let picture = image::load_from_memory(&raw).unwrap().to_rgb8();
    assert_eq!(picture.dimensions(), (SCREEN_W, SCREEN_H));
    assert_eq!(*picture.get_pixel(0, 0), image::Rgb([0, 0, 0]));
    assert_eq!(*picture.get_pixel(160, 120), image::Rgb([0, 0, 0]));
    assert!(raw.len() < 12_000);
}

#[test]
fn text_frame_renders() {
    let frame =
        render_text_frame(&fits, "今日任务", "专注开发\n保持节奏", "USB DIRECT", "#35E7FF").unwrap();
    let canvas = draw(&frame);
    assert_eq!((canvas.width, canvas.height), (SCREEN_W, SCREEN_H));
    let jpeg = encode_jpeg(&canvas).unwrap();
    assert!(!jpeg.is_empty());
}

#[test]
fn page_has_frame_title_lines_and_footer() {
    let frame = render_text_frame(&fits, "题", "一\n二", "尾", "#ff0000").unwrap();
    assert_eq!(frame.ground, (2, 7, 11));
    let canvas = draw(&frame);
    assert_eq!(point(&canvas, 100, 8), (255, 0, 0));
    assert_eq!(point(&canvas, 100, 61), (255, 0, 0));
    assert_eq!(point(&canvas, 23, 24), (255, 0, 0));
    assert_eq!(point(&canvas, 100, 100), (2, 7, 11));
    let texts: Vec<(String, u32, u32)> = frame
        .shapes
        .iter()
        .filter_map(|s| match s {
            Shape::Text(t) => Some((t.text.clone(), t.size, t.half_y)),
            _ => None,
        })
        .collect();
    assert_eq!(
        texts,
        [
            ("题".to_owned(), 31, 34),
            ("一".to_owned(), 27, 202),
            ("二".to_owned(), 27, 270),
            ("尾".to_owned(), 14, 414),
        ]
    );
    assert!(frame.shapes.iter().any(|s| matches!(
        s,
        Shape::Text(t) if t.place == Place::Centre { left: 34, width: 263 }
    )));
    assert_eq!(
        render_text_frame(&fits, "", "", "", "red").unwrap_err().message(),
        "颜色必须是 #RRGGBB：red"
    );
}

#[test]
fn lines_are_filled_and_nothing_is_lost() {
    let text = "abcdefghij\nxy";
    let lines = wrap_text(&fits, 10, false, text, 20);
    assert_eq!(lines, ["abcd", "efgh", "ij", "xy"]);
    assert_eq!(wrap_text(&fits, 10, false, "", 20), [""]);
    assert_eq!(wrap_text(&fits, 100, false, "ab", 1), ["a", "b"]);
    let joined: String = lines.concat();
    assert_eq!(joined, text.replace('\n', ""));
}

#[test]
fn sizes_shrink_until_they_fit() {
    assert_eq!(fit_single_line_font(&fits, "abcd", 40, 31, 17, true), 20);
    assert_eq!(fit_single_line_font(&fits, "abcd", 1, 31, 17, true), 17);
    assert_eq!(fit_single_line_font(&fits, "", 1, 31, 17, true), 31);
    let small = fit_body(&fits, &"字".repeat(400), 274, 124);
    assert_eq!(small.size, 14);
    assert_eq!(small.lines.len(), 5);
    assert_eq!(small.height, 21);
    let large = fit_body(&fits, "一行", 274, 124);
    assert_eq!((large.size, large.lines.len(), large.height), (27, 1, 34));
    let middle = fit_body(&fits, "1\n2\n3\n4", 274, 124);
    assert_eq!(middle.size, 24);
}

#[test]
fn regions_and_points_are_painted() {
    let mut canvas = Canvas::screen((1, 1, 1));
    canvas.fill(Region::Block { x0: -5, y0: 238, x1: 1, y1: 500 }, (9, 8, 7));
    assert_eq!(point(&canvas, 1, 239), (9, 8, 7));
    assert_eq!(point(&canvas, 2, 239), (1, 1, 1));
    canvas.fill(Region::Disc { cx: 100, cy: 100, r: 4 }, (5, 5, 5));
    assert_eq!(point(&canvas, 104, 100), (5, 5, 5));
    assert_eq!(point(&canvas, 103, 103), (1, 1, 1));
    canvas.plot(&vec![(-1, 0), (319, 239), (320, 0)], (3, 2, 1));
    assert_eq!(point(&canvas, 319, 239), (3, 2, 1));
    let small = Canvas { width: 1, height: 1, pixels: vec![0, 0, 0] };
    assert_eq!(encode_jpeg(&small).unwrap_err().message(), "画面必须是 320x240。");
}

#[test]
fn picture_is_flattened_scaled_and_centred() {
    let mut pixels = Vec::new();
    for _ in 0..640 * 240 {
        pixels.extend_from_slice(&[200, 100, 50, 255]);
    }
    let source = Rgba { width: 640, height: 240, pixels };
    let canvas = render_image_frame(&source, "#000000").unwrap();
    assert_eq!(point(&canvas, 160, 59), (0, 0, 0));
    assert_eq!(point(&canvas, 160, 60), (200, 100, 50));
    assert_eq!(point(&canvas, 0, 179), (200, 100, 50));
    assert_eq!(point(&canvas, 0, 180), (0, 0, 0));
    let clear = Rgba { width: 320, height: 240, pixels: vec![0; 320 * 240 * 4] };
    let ground = render_image_frame(&clear, "#0a0b0c").unwrap();
    assert_eq!(point(&ground, 7, 7), (10, 11, 12));
    assert!(render_image_frame(&clear, "black").is_err());
    let one = centre_picture((4, 4, 4), 1, 1, &vec![7, 8, 9]);
    assert_eq!(point(&one, 159, 119), (7, 8, 9));
    assert_eq!(point(&one, 160, 119), (4, 4, 4));
}

#[test]
fn picture_of_the_size_of_the_screen_is_kept() {
    let mut pixels = Vec::new();
    for i in 0..320 * 240u32 {
        pixels.extend_from_slice(&[i as u8, (i / 320) as u8, 9, 255]);
    }
    let source = Rgba { width: 320, height: 240, pixels };
    let canvas = render_image_frame(&source, "#ffffff").unwrap();
    assert_eq!(point(&canvas, 0, 0), (0, 0, 9));
    assert_eq!(point(&canvas, 5, 200), ((200 * 320 + 5) as u8, 200, 9));
    assert!(check_size(8000, 5000).is_ok());
    assert_eq!(check_size(8000, 5001).unwrap_err(), "图片超过 4000 万像素");
}

#[test]
fn calendar_page_lists_what_has_room() {
    let items: Vec<Json> = (0..12)
        .map(|i| {
            Json::object()
                .with("text", Json::text(&format!("任务{i}")))
                .with("done", Json::Bool(i == 1))
        })
        .collect();
    let day = read("{\"date\":\"2026-09-08\",\"weekday\":\"周二\",\"account\":\"工作\",\"done\":1,\"total\":12}".as_bytes())
        .unwrap()
        .with("items", Json::list(items));
    let pages = render_calendar_pages(&fits, &day).unwrap();
    assert_eq!(pages.len(), 1);
    let texts: Vec<(String, u32, bool)> = pages[0]
        .shapes
        .iter()
        .filter_map(|s| match s {
            Shape::Text(t) => Some((t.text.clone(), t.half_y, t.struck)),
            _ => None,
        })
        .collect();
    assert_eq!(texts[0].0, "日历清单");
    assert_eq!(texts[1].0, "完成 1/12");
    assert_eq!(texts[2].0, "2026-09-08  周二 · 工作");
    assert_eq!(texts[3], ("01".to_owned(), 124, false));
    assert_eq!(texts[4], ("任务0".to_owned(), 120, false));
    assert_eq!(texts[6], ("任务1".to_owned(), 168, true));
    assert_eq!(texts.last().unwrap().0, "仅第一页 · 还有内容");
    assert_eq!(texts.len(), 3 + 2 * 6 + 2);
    let empty = Json::object().with("items", Json::list(Vec::new()));
    let page = &render_calendar_pages(&fits, &empty).unwrap()[0];
    assert!(page.shapes.iter().any(|s| matches!(s, Shape::Text(t) if t.text == "当日暂无任务")));
    assert!(page.shapes.iter().any(|s| matches!(s, Shape::Text(t) if t.text == "固定显示第一页")));
    assert_eq!(
        render_calendar_pages(&fits, &Json::Null).unwrap_err().message(),
        "日历快照缺少 items"
    );
}

#[test]
fn notes_have_at_most_two_lines() {
    let frame = task_labels(&fits, "t", "a\nb\nc");
    let drawn: Vec<(String, u32)> = frame
        .shapes
        .iter()
        .filter_map(|s| match s {
            Shape::Text(t) => Some((t.text.clone(), t.half_y)),
            _ => None,
        })
        .collect();
    let expected = [("a".to_owned(), 16), ("b".to_owned(), 48), ("t".to_owned(), 436)];
    assert_eq!(drawn, expected);
}

#[test]
fn notes_take_two_lines_where_they_can() {
    let frame = task_labels(&fits, "题", &"注".repeat(80));
    let sizes: Vec<u32> = frame
        .shapes
        .iter()
        .filter_map(|s| match s {
            Shape::Text(t) => Some(t.size),
            _ => None,
        })
        .collect();
    assert_eq!(sizes, [10, 10, 18]);
}

#[test]
fn fonts_are_looked_for_in_order() {
    let bold: Vec<&str> = font_candidates(true).iter().map(|f| f.name).collect();
    assert_eq!(bold, ["msyhbd.ttc", "simhei.ttf", "arialbd.ttf", "NotoSansCJK-Bold.ttc"]);
    assert_eq!(font_candidates(false)[3].index, 3);
}

#[test]
fn icons_are_square_and_see_through() {
    let mut pixels = vec![255u8; 16];
    assert_eq!(icon_fault(2, 2, &pixels), Some("图标背景必须透明"));
    pixels[0] = 0;
    assert_eq!(icon_fault(2, 2, &pixels), Some("图标背景必须透明"));
    pixels[15] = 0;
    assert_eq!(icon_fault(2, 2, &pixels), None);
    assert_eq!(icon_fault(4, 1, &pixels), Some("应用图标必须为正方形"));
}

#[test]
fn every_screen_can_be_sent() {
    for ground in [(0, 0, 0), (255, 255, 255), (12, 200, 99)] {
        assert!(encode_jpeg(&Canvas::screen(ground)).is_ok());
    }
    let small = Canvas { width: 2, height: 1, pixels: vec![0; 6] };
    assert_eq!(encode_jpeg(&small).unwrap_err().message(), "画面必须是 320x240。");
}
