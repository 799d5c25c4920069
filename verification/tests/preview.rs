use neukgu::hexdump::dump_hex;
use neukgu::preview::{preview, preview_read, FileBytes, Preview, PreviewLimits, PreviewRead, Shown};
use std::io::Cursor;

fn content_of(p: Preview) -> (String, bool, Shown) {
    match p {
        Preview::Content { content, is_text, shown } => (content, is_text, shown),
        Preview::Image { .. } => panic!("an image"),
    }
}

#[test]
fn a_small_text_is_shown_whole() {
    let limits = PreviewLimits::browser();
    assert_eq!(preview_read(5, &limits), PreviewRead::Whole);
    let (content, is_text, shown) = content_of(preview(5, FileBytes::Whole(b"hello".to_vec()), &limits));
    assert_eq!(content, "hello");
    assert!(is_text);
    assert!(matches!(shown, Shown::Whole(s) if s == "hello"));
}

#[test]
fn bytes_that_are_no_text_nor_image_are_dumped() {
    let limits = PreviewLimits::browser();
    let bytes = vec![0xff, 0x00, 0x41];
    let (content, is_text, shown) = content_of(preview(3, FileBytes::Whole(bytes.clone()), &limits));
    assert_eq!(content, dump_hex(&bytes, 0));
    assert!(!is_text);
    assert!(matches!(shown, Shown::Whole(_)));
}

#[test]
fn an_image_is_previewed_by_its_size() {
    let img = image::RgbImage::new(2, 3);
    let mut png = Cursor::new(Vec::new());
    img.write_to(&mut png, image::ImageFormat::Png).unwrap();
    let bytes = png.into_inner();
    match preview(bytes.len(), FileBytes::Whole(bytes), &PreviewLimits::browser()) {
        Preview::Image { width, height } => assert_eq!((width, height), (2, 3)),
        Preview::Content { .. } => panic!("not an image"),
    }
}

#[test]
fn a_long_text_is_cut() {
    let limits = PreviewLimits::browser();
    let text = "a".repeat(40000);
    let (_, is_text, shown) = content_of(preview(40000, FileBytes::Whole(text.into_bytes()), &limits));
    assert!(is_text);
    match shown {
        Shown::Cut { head, hidden, tail } => {
            assert_eq!(head.len(), 10751);
            assert_eq!(tail.len(), 10752);
            assert_eq!(hidden, 40000 - 10751 - 10752);
        },
        Shown::Whole(_) => panic!("not cut"),
    }
}

#[test]
fn hidden_bytes_of_a_text_count_its_encoding() {
    let limits = PreviewLimits::browser();
    let text = "가".repeat(33000);
    let size = text.len();
    let (_, _, shown) = content_of(preview(size, FileBytes::Whole(text.into_bytes()), &limits));
    match shown {
        Shown::Cut { head, hidden, tail } => {
            assert_eq!(head.chars().count(), 10751);
            assert_eq!(tail.chars().count(), 10752);
            assert_eq!(hidden, (33000 - 10751 - 10752) * 3);
        },
        Shown::Whole(_) => panic!("not cut"),
    }
}

#[test]
fn a_long_dump_hides_all_but_what_it_shows() {
    let limits = PreviewLimits::browser();
    let bytes = vec![0xffu8; 10000];
    let (content, is_text, shown) = content_of(preview(10000, FileBytes::Whole(bytes), &limits));
    assert!(!is_text);
    assert_eq!(content.chars().count(), 84 * 625);
    match shown {
        Shown::Cut { hidden, .. } => assert_eq!(hidden, 10000 - 4096),
        Shown::Whole(_) => panic!("not cut"),
    }
}

#[test]
fn a_large_file_is_dumped_by_its_ends() {
    let limits = PreviewLimits::browser();
    let size = 40 * 1024 * 1024 + 7;
    let tail_from = match preview_read(size, &limits) {
        PreviewRead::Edges { head_len, tail_from } => {
            assert_eq!(head_len, 16384);
            tail_from
        },
        PreviewRead::Whole => panic!("read whole"),
    };
    assert_eq!(tail_from % 32, 0);
    assert_eq!(tail_from, (size - 16384) / 32 * 32);
    let head = vec![0x41u8; 16384];
    let tail = vec![0x42u8; size - tail_from];
    let (content, is_text, shown) = content_of(preview(size, FileBytes::Edges { head: head.clone(), tail: tail.clone() }, &limits));
    assert!(!is_text);
    assert_eq!(content, format!("{}{}", dump_hex(&head, 0), dump_hex(&tail, tail_from)));
    match shown {
        Shown::Cut { hidden, .. } => assert_eq!(hidden, size - 4096),
        Shown::Whole(_) => panic!("not cut"),
    }
}

#[test]
fn the_launcher_cuts_sooner() {
    let limits = PreviewLimits::launcher();
    let text = "b".repeat(20000);
    let (_, _, shown) = content_of(preview(20000, FileBytes::Whole(text.into_bytes()), &limits));
    match shown {
        Shown::Cut { head, hidden, tail } => {
            assert_eq!(head.len(), 5375);
            assert_eq!(tail.len(), 5376);
            assert_eq!(hidden, 20000 - 5375 - 5376);
        },
        Shown::Whole(_) => panic!("not cut"),
    }
    let (_, _, shown) = content_of(preview(16384, FileBytes::Whole("c".repeat(16384).into_bytes()), &limits));
    assert!(matches!(shown, Shown::Whole(_)));
}
