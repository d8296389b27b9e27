use quire::launch::{parse_launch_args, DEFAULT_SHARE_PORT};
use quire::shot::{bmp_bytes, parse, shot_args};
use quire::platform::dib::decode;

fn argv(args: &[&str]) -> Vec<String> {
    std::iter::once("quire").chain(args.iter().copied()).map(String::from).collect()
}

#[test]
fn no_arguments_is_a_plain_session() {
    let a = parse_launch_args(&argv(&[]));
    assert_eq!(a.blocks, 0);
    assert_eq!(a.bench_pages, 0);
    assert!(a.auto_exit.is_none() && a.scene.is_none() && a.db.is_none() && a.open.is_none());
    assert!(a.share.is_none() && a.pull.is_none());
    assert!(!a.scroll && !a.dump_state);
}

#[test]
fn each_switch_lands_in_its_field() {
    let a = parse_launch_args(&argv(&[
        "--blocks", "10000", "--auto-exit", "2.5", "--page-switch", "12", "--scroll", "--scene",
        "menu", "--db", "x.db", "--dump-state", "--pull", "http://h:5877",
    ]));
    assert_eq!(a.blocks, 10000);
    assert_eq!(a.auto_exit.as_deref(), Some("2.5"));
    assert_eq!(a.bench_pages, 12);
    assert!(a.scroll);
    assert_eq!(a.scene.as_deref(), Some("menu"));
    assert_eq!(a.db.as_deref(), Some("x.db"));
    assert!(a.dump_state);
    assert_eq!(a.pull.as_deref(), Some("http://h:5877"));
}

#[test]
fn a_count_that_is_not_a_number_is_zero_and_a_bad_port_is_no_port() {
    let a = parse_launch_args(&argv(&["--blocks", "many", "--share-port", "99999"]));
    assert_eq!(a.blocks, 0);
    assert_eq!(a.share, None);
    let a = parse_launch_args(&argv(&["--blocks", "+7", "--share-port", "8080"]));
    assert_eq!(a.blocks, 7);
    assert_eq!(a.share, Some(8080));
    let a = parse_launch_args(&argv(&["--share"]));
    assert_eq!(a.share, Some(DEFAULT_SHARE_PORT));
    assert_eq!(DEFAULT_SHARE_PORT, 5877);
}

#[test]
fn the_first_bare_argument_is_the_file_to_open() {
    let a = parse_launch_args(&argv(&["notes.md", "other.md"]));
    assert_eq!(a.open.as_deref(), Some("notes.md"));
    let a = parse_launch_args(&argv(&["--open", "a.md", "b.md"]));
    assert_eq!(a.open.as_deref(), Some("a.md"));
    // a switch missing its value is ignored, and so is an unknown one
    let a = parse_launch_args(&argv(&["--unknown", "--scene"]));
    assert!(a.scene.is_none() && a.open.is_none());
}

#[test]
fn the_shot_tool_reads_its_options() {
    let args: Vec<String> = ["quire-shot", "--scene", "menu", "--w", "640", "--h", "abc"]
        .iter()
        .map(|s| s.to_string())
        .collect();
    assert_eq!(parse(&args, "--scene"), Some("menu".to_string()));
    assert_eq!(parse(&args, "--missing"), None);
    let o = shot_args(&args);
    assert_eq!(o.out, "quire-shot.bmp");
    assert_eq!(o.scene.as_deref(), Some("menu"));
    assert_eq!((o.width, o.height), (640, 800));
    let tail: Vec<String> = vec!["x".into(), "--out".into()];
    assert_eq!(parse(&tail, "--out"), None, "a key at the end has no value");
}

#[test]
fn a_bmp_is_bottom_up_and_padded() {
    // two pixels wide, two tall: red, green / blue, white
    let rgb = [255, 0, 0, 0, 255, 0, 0, 0, 255, 255, 255, 255];
    let bmp = bmp_bytes(2, 2, &rgb);
    assert_eq!(&bmp[0..2], b"BM");
    assert_eq!(u32::from_le_bytes([bmp[2], bmp[3], bmp[4], bmp[5]]), 54 + 16);
    assert_eq!(bmp.len(), 54 + 16);
    assert_eq!(u32::from_le_bytes([bmp[10], bmp[11], bmp[12], bmp[13]]), 54);
    // the first stored row is the picture's bottom row, as B, G, R, padded
    assert_eq!(&bmp[54..62], &[255, 0, 0, 255, 255, 255, 0, 0]);
    assert_eq!(&bmp[62..70], &[0, 0, 255, 0, 255, 0, 0, 0]);
}

#[test]
fn the_shot_file_reads_back_through_the_clipboard_decoder() {
    let (w, h) = (3u32, 2u32);
    let rgb: Vec<u8> = (0..(w * h * 3) as u8).map(|v| v.wrapping_mul(37)).collect();
    let bmp = bmp_bytes(w, h, &rgb);
    let img = decode(&bmp[14..]).expect("a 24-bit bitmap decodes");
    assert_eq!((img.width, img.height), (w, h));
    for p in 0..(w * h) as usize {
        assert_eq!(&img.pixels[4 * p..4 * p + 3], &rgb[3 * p..3 * p + 3]);
        assert_eq!(img.pixels[4 * p + 3], 255);
    }
}

#[test]
fn share_takes_an_optional_port() {
    let a = parse_launch_args(&argv(&["--share", "6000"]));
    assert_eq!(a.share, Some(6000));
    assert_eq!(a.open, None);
    let a = parse_launch_args(&argv(&["--share", "notes.md"]));
    assert_eq!(a.share, Some(DEFAULT_SHARE_PORT));
    assert_eq!(a.open.as_deref(), Some("notes.md"));
    let a = parse_launch_args(&argv(&["--share", "--dump-state"]));
    assert_eq!(a.share, Some(DEFAULT_SHARE_PORT));
    assert!(a.dump_state);
}
