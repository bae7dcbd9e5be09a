use stow::intro_anim::{frame_to_text, Disposal, HalfBlock, LogoAnim, RawFrame, Rgb};

const BG: Rgb = Rgb { r: 13, g: 17, b: 23 };

fn frame(width: u16, height: u16, left: u16, top: u16, delay: u16, dispose: Disposal, buffer: Vec<u8>) -> RawFrame {
    RawFrame { width, height, left, top, delay, dispose, buffer }
}

#[test]
fn frames_are_composed_and_disposed() {
    let red = [255, 0, 0, 255];
    let blue = [0, 0, 255, 255];
    let f1 = frame(2, 2, 0, 0, 5, Disposal::Keep, [red, blue, blue, red].concat());
    let f2 = frame(1, 1, 1, 1, 0, Disposal::Previous, vec![0, 255, 0, 255]);
    let f3 = frame(1, 1, 0, 0, 3, Disposal::Background, vec![1, 1, 1, 10]);
    let f4 = frame(2, 1, 1, 0, 1, Disposal::Any, vec![7, 7, 7, 200, 8, 8, 8, 200]);
    let anim = LogoAnim::from_frames(2, 2, &vec![f1, f2, f3, f4]);
    assert_eq!(anim.frames.len(), 4);
    let shown1 = [red, blue, blue, red].concat();
    let shown2 = [red, blue, blue, [0, 255, 0, 255]].concat();
    assert_eq!(anim.frames[0], shown1);
    assert_eq!(anim.frames[1], shown2);
    // frame 2 was undone; frame 3 is transparent, so nothing is drawn
    assert_eq!(anim.frames[2], shown1);
    // frame 3 cleared the alpha of its pixel; frame 4 drew only the pixel inside the canvas
    assert_eq!(anim.frames[3], [[255, 0, 0, 0], [7, 7, 7, 200], blue, red].concat());
    assert_eq!(anim.total_duration(), 50 + 10 + 30 + 10);
    assert_eq!(anim.dim(), (2, 2, 1));
    assert_eq!(anim.last_frame(), &anim.frames[3][..]);
}

#[test]
fn frame_at_picks_frame_by_share_of_time() {
    let px = |v: u8| vec![v, v, v, 255];
    let frames = vec![
        frame(1, 1, 0, 0, 10, Disposal::Keep, px(1)),
        frame(1, 1, 0, 0, 10, Disposal::Keep, px(2)),
        frame(1, 1, 0, 0, 20, Disposal::Keep, px(3)),
    ];
    let anim = LogoAnim::from_frames(1, 1, &frames);
    assert_eq!(anim.total_duration(), 400);
    assert_eq!(anim.frame_at(0), Some(&px(1)[..]));
    assert_eq!(anim.frame_at(133), Some(&px(1)[..]));
    assert_eq!(anim.frame_at(134), Some(&px(2)[..]));
    assert_eq!(anim.frame_at(399), Some(&px(3)[..]));
    assert_eq!(anim.frame_at(400), Some(&px(3)[..]));
    assert_eq!(anim.frame_at(1_000_000), Some(&px(3)[..]));
    let empty = LogoAnim::from_frames(3, 5, &vec![]);
    assert_eq!(empty.frame_at(5), None);
    assert!(empty.last_frame().is_empty());
    assert_eq!(empty.dim(), (3, 5, 3));
}

#[test]
fn frame_to_text_pairs_pixel_rows() {
    // 2 wide, 3 high: rows 0-1 make the first cell row, row 2 the second
    let pixels = vec![
        10, 11, 12, 255, 0, 0, 0, 0, //
        20, 21, 22, 200, 30, 31, 32, 128, //
        40, 41, 42, 129, 50, 51, 52, 255,
    ];
    let rows = frame_to_text(&pixels, 2, 3);
    assert_eq!(rows.len(), 2);
    assert_eq!(rows[0].len(), 2);
    assert_eq!(rows[0][0], HalfBlock { fg: Rgb { r: 10, g: 11, b: 12 }, bg: Rgb { r: 20, g: 21, b: 22 } });
    assert_eq!(rows[0][1], HalfBlock { fg: BG, bg: BG });
    assert_eq!(rows[1][0], HalfBlock { fg: Rgb { r: 40, g: 41, b: 42 }, bg: BG });
    assert_eq!(rows[1][1], HalfBlock { fg: Rgb { r: 50, g: 51, b: 52 }, bg: BG });
    assert!(frame_to_text(&[], 0, 0).is_empty());
}

fn encode(frames: &[(u16, u16, u16, u16, u16, gif::DisposalMethod, Vec<u8>, Option<u8>)]) -> Vec<u8> {
    let mut out = Vec::new();
    {
        let mut enc = gif::Encoder::new(&mut out, 2, 2, &[]).unwrap();
        for (w, h, left, top, delay, dispose, px, transparent) in frames {
            let mut f = gif::Frame::from_palette_pixels(
                *w,
                *h,
                px.clone(),
                vec![255u8, 0, 0, 0, 0, 255, 0, 255, 0],
                *transparent,
            );
            f.left = *left;
            f.top = *top;
            f.delay = *delay;
            f.dispose = *dispose;
            enc.write_frame(&f).unwrap();
        }
    }
    out
}

#[test]
fn new_decodes_and_composes_a_gif() {
    let data = encode(&[
        (2, 2, 0, 0, 5, gif::DisposalMethod::Keep, vec![0, 1, 1, 0], None),
        (1, 1, 1, 1, 2, gif::DisposalMethod::Previous, vec![2], None),
        (1, 1, 0, 0, 0, gif::DisposalMethod::Background, vec![1], Some(1)),
    ]);
    let anim = LogoAnim::new(&data).unwrap();
    assert_eq!((anim.width, anim.height), (2, 2));
    assert_eq!(anim.frames.len(), 3);
    let red = [255, 0, 0, 255];
    let blue = [0, 0, 255, 255];
    assert_eq!(anim.frames[0], [red, blue, blue, red].concat());
    assert_eq!(anim.frames[1], [red, blue, blue, [0, 255, 0, 255]].concat());
    assert_eq!(anim.frames[2], [red, blue, blue, red].concat());
    assert_eq!(anim.total_duration(), 50 + 20 + 10);
    assert_eq!(anim.last_frame(), &anim.frames[2][..]);
    // every alpha byte is cleared or opaque
    for f in &anim.frames {
        assert!(f.iter().skip(3).step_by(4).all(|&a| a == 0 || a >= 128));
    }
    // at least 10 ms per frame
    assert!(anim.total_duration() >= 10 * anim.frames.len() as u64);
}

#[test]
fn new_reports_decoding_errors() {
    assert!(LogoAnim::new(b"not a gif").is_err());
    assert!(LogoAnim::new(&[]).is_err());
}

#[test]
fn from_decoded_refuses_frames_that_do_not_fit() {
    let short = frame(2, 1, 0, 0, 1, Disposal::Keep, vec![1, 2, 3, 4]);
    match LogoAnim::from_decoded(2, 1, &vec![short]) {
        Err(e) => assert_eq!(e, "frame buffer shorter than the frame"),
        Ok(_) => panic!("a short buffer must be refused"),
    }
    let slow: Vec<RawFrame> = (0..30000)
        .map(|_| frame(0, 0, 0, 0, 65535, Disposal::Keep, vec![]))
        .collect();
    assert!(LogoAnim::from_decoded(1, 1, &slow).is_ok());
    let ok = frame(1, 1, 0, 0, 2, Disposal::Keep, vec![9, 9, 9, 255]);
    let anim = LogoAnim::from_decoded(1, 1, &vec![ok]).unwrap();
    assert_eq!(anim.frames, vec![vec![9, 9, 9, 255]]);
    assert_eq!(anim.total_duration(), 20);
}

#[test]
fn frame_at_never_steps_backwards() {
    let frames: Vec<RawFrame> = (0..4u8)
        .map(|v| frame(1, 1, 0, 0, 3, Disposal::Keep, vec![v, v, v, 255]))
        .collect();
    let anim = LogoAnim::from_frames(1, 1, &frames);
    let mut last = 0u8;
    for ms in 0..200u128 {
        let v = anim.frame_at(ms).unwrap()[0];
        assert!(v >= last);
        last = v;
    }
    assert_eq!(last, 3);
}
