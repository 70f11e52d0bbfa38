use gemini_unmark::video::{
    check_decoded, check_encode_frame, check_request, encode_args, resolve_tool_path, tool_env_key, FfTool, check_stream, decimal, dims_ok, frame_nbytes, logo_rgb, margin_window, probe_indices, reflect101, ring_bounds,
    select_map, select_probe_frames, MapChoice, MarkKind, VideoError,
};

#[test]
fn probe_indices_are_evenly_spaced() {
    assert_eq!(probe_indices(0), Vec::<usize>::new());
    assert_eq!(probe_indices(1), vec![0]);
    assert_eq!(probe_indices(3), vec![0, 1, 2]);
    assert_eq!(probe_indices(5), vec![0, 1, 2, 3, 4]);
    assert_eq!(probe_indices(240), vec![0, 59, 119, 179, 239]);
    assert_eq!(probe_indices(6), vec![0, 1, 2, 3, 5]);
}

#[test]
fn frame_nbytes_checks_overflow() {
    assert_eq!(frame_nbytes(1280, 720).unwrap(), 1280 * 720 * 4);
    assert_eq!(frame_nbytes(0, 9).unwrap(), 0);
    if usize::BITS == 32 {
        match frame_nbytes(70000, 70000) {
            Err(VideoError::InvalidInput(m)) => assert_eq!(m, "frame size overflow"),
            other => panic!("{other:?}"),
        }
    }
}

#[test]
fn select_map_by_geometry() {
    assert_eq!(select_map(MarkKind::Diamond, 48, 48, false, false).unwrap(), MapChoice::Standard720);
    assert_eq!(select_map(MarkKind::Auto, 72, 72, false, false).unwrap(), MapChoice::Standard1080);
    assert_eq!(select_map(MarkKind::Veo, 72, 72, false, false).unwrap(), MapChoice::Standard1080);
    assert_eq!(select_map(MarkKind::Diamond, 44, 44, false, false).unwrap(), MapChoice::Standard720);
    assert_eq!(select_map(MarkKind::Diamond, 44, 44, false, true).unwrap(), MapChoice::Compact720);
    assert_eq!(select_map(MarkKind::Diamond, 72, 72, true, true).unwrap(), MapChoice::Compact720);
    match select_map(MarkKind::Veo, 48, 48, false, false) {
        Err(VideoError::Detect(m)) => assert_eq!(m, "Veo maps not available in phase 1"),
        other => panic!("{other:?}"),
    }
}

#[test]
fn reflect101_mirrors_without_repeating_edges() {
    assert_eq!(reflect101(-1, 5), 1);
    assert_eq!(reflect101(-2, 5), 2);
    assert_eq!(reflect101(5, 5), 3);
    assert_eq!(reflect101(6, 5), 2);
    assert_eq!(reflect101(3, 5), 3);
    assert_eq!(reflect101(13, 5), 3);
    assert_eq!(reflect101(7, 1), 0);
    assert_eq!(reflect101(-9, 2), 1);
}

#[test]
fn logo_rgb_defaults_to_white() {
    assert_eq!(logo_rgb(&None, 3), (255, 255, 255));
    let rgb = Some(vec![1, 2, 3, 4, 5, 6]);
    assert_eq!(logo_rgb(&rgb, 1), (4, 5, 6));
    assert_eq!(logo_rgb(&rgb, 2), (255, 255, 255));
}

#[test]
fn dims_ok_checks_sizes_and_box() {
    assert!(dims_ok(64 * 32 * 4, 64, 32, 16, 0, 48, 32, 48 * 32));
    assert!(!dims_ok(64 * 32 * 4, 64, 32, 17, 0, 48, 32, 48 * 32));
    assert!(!dims_ok(64 * 32 * 4 - 1, 64, 32, 0, 0, 48, 32, 48 * 32));
    assert!(!dims_ok(64 * 32 * 4, 64, 32, 0, 0, 48, 32, 48 * 32 - 1));
    assert!(!dims_ok(0, 0, 32, 0, 0, 48, 32, 48 * 32));
}

#[test]
fn ring_bounds_clip_to_frame() {
    assert_eq!(ring_bounds(100, 80, 2, 10, 48, 48), (0, 6, 54, 62));
    assert_eq!(ring_bounds(50, 60, 10, 20, 48, 48), (6, 16, 50, 60));
}

#[test]
fn margin_window_clips_to_room() {
    assert_eq!(margin_window(1280, 720, 48, 48, 48, 128), Some((48, 128, 48, 128)));
    assert_eq!(margin_window(100, 100, 48, 48, 48, 128), Some((48, 52, 48, 52)));
    assert_eq!(margin_window(100, 100, 48, 48, 60, 128), Some((52, 52, 52, 52)));
    assert_eq!(margin_window(100, 100, 48, 48, 10, 5), None);
    assert_eq!(margin_window(40, 100, 48, 48, 1, 5), Some((0, 0, 1, 5)));
}

#[test]
fn errors_describe_themselves() {
    assert_eq!(VideoError::Ffmpeg("x".into()).describe(), "ffmpeg error: x");
    assert_eq!(VideoError::Detect("y".into()).describe(), "detection error: y");
    assert_eq!(VideoError::InvalidInput("z".into()).describe(), "invalid input: z");
    let io = VideoError::Io(std::io::Error::new(std::io::ErrorKind::Other, "boom"));
    assert_eq!(io.describe(), "I/O error: boom");
}

#[test]
fn decimal_renders_digits() {
    assert_eq!(decimal(0), "0");
    assert_eq!(decimal(7), "7");
    assert_eq!(decimal(10), "10");
    assert_eq!(decimal(3686400), "3686400");
}

#[test]
fn probe_frames_are_evenly_spaced_copies() {
    let frames: Vec<Vec<u8>> = (0..9u8).map(|i| vec![i; 8]).collect();
    let got = select_probe_frames(&frames, 1, 2).expect("sizes match");
    let picked: Vec<u8> = got.iter().map(|(_, _, f)| f[0]).collect();
    assert_eq!(picked, vec![0, 2, 4, 6, 8]);
    assert!(got.iter().all(|(w, h, f)| *w == 1 && *h == 2 && f.len() == 8));
}

#[test]
fn probe_frames_single_frame() {
    let frames = vec![vec![5u8; 4]];
    let got = select_probe_frames(&frames, 1, 1).expect("size matches");
    assert_eq!(got, vec![(1, 1, vec![5u8; 4])]);
}

#[test]
fn probe_frame_of_wrong_size_is_reported() {
    let mut frames: Vec<Vec<u8>> = (0..9u8).map(|i| vec![i; 8]).collect();
    frames[4] = vec![0; 7];
    frames[8] = vec![0; 3];
    match select_probe_frames(&frames, 1, 2) {
        Err(VideoError::InvalidInput(m)) => assert_eq!(m, "frame 4 size 7 != expected 8"),
        other => panic!("unexpected {:?}", other.map(|v| v.len())),
    }
}

#[test]
fn probe_frames_size_overflow() {
    let frames = vec![vec![0u8; 4]];
    match select_probe_frames(&frames, u32::MAX, u32::MAX) {
        Err(VideoError::InvalidInput(m)) => assert_eq!(m, "frame size overflow"),
        _ => panic!("expected overflow error"),
    }
}

#[test]
fn request_must_name_a_file() {
    match check_request(false, "missing.mp4", MarkKind::Auto) {
        Err(VideoError::InvalidInput(m)) => assert_eq!(m, "input is not a file: missing.mp4"),
        _ => panic!("expected invalid input"),
    }
}

#[test]
fn veo_removal_is_refused() {
    match check_request(true, "clip.mp4", MarkKind::Veo) {
        Err(VideoError::Detect(m)) => assert_eq!(m, "Veo mark removal is not available in phase 1"),
        _ => panic!("expected detect error"),
    }
    assert!(check_request(true, "clip.mp4", MarkKind::Diamond).is_ok());
    assert!(check_request(true, "clip.mp4", MarkKind::Auto).is_ok());
}

#[test]
fn stream_and_decode_checks() {
    match check_stream(0, 720) {
        Err(VideoError::InvalidInput(m)) => assert_eq!(m, "ffprobe reported zero width/height"),
        _ => panic!("expected invalid input"),
    }
    assert!(check_stream(1280, 720).is_ok());
    match check_decoded(0) {
        Err(VideoError::InvalidInput(m)) => assert_eq!(m, "no frames decoded from input"),
        _ => panic!("expected invalid input"),
    }
    assert!(check_decoded(3).is_ok());
}

#[test]
fn tool_paths_prefer_override_then_vendored_then_path() {
    let env = Some("/opt/ff/ffmpeg".to_string());
    let ven = Some("/vendored/ffmpeg".to_string());
    assert_eq!(resolve_tool_path(FfTool::Ffmpeg, env.clone(), true, ven.clone(), true), "/opt/ff/ffmpeg");
    assert_eq!(resolve_tool_path(FfTool::Ffmpeg, env.clone(), false, ven.clone(), true), "/vendored/ffmpeg");
    assert_eq!(resolve_tool_path(FfTool::Ffmpeg, env, false, ven, false), "ffmpeg");
    assert_eq!(resolve_tool_path(FfTool::Ffprobe, None, true, None, true), "ffprobe");
    assert_eq!(tool_env_key(FfTool::Ffmpeg), "GUM_FFMPEG");
    assert_eq!(tool_env_key(FfTool::Ffprobe), "GUM_FFPROBE");
}

#[test]
fn encode_arguments_with_and_without_audio() {
    let with = encode_args(1280, 720, "24.000000", "in.mp4", "out.mp4", true);
    let expected: Vec<String> = [
        "-hide_banner", "-loglevel", "error", "-y", "-f", "rawvideo", "-pix_fmt", "rgba", "-s", "1280x720",
        "-framerate", "24.000000", "-i", "pipe:0", "-i", "in.mp4", "-map", "0:v:0", "-map", "1:a:0", "-c:a",
        "copy", "-c:v", "libx264", "-pix_fmt", "yuv420p", "-crf", "18", "-movflags", "+faststart", "out.mp4",
    ]
    .iter()
    .map(|s| s.to_string())
    .collect();
    assert_eq!(with, expected);
    let without = encode_args(1280, 720, "24.000000", "in.mp4", "out.mp4", false);
    assert_eq!(without.len(), expected.len() - 4);
    assert!(!without.iter().any(|a| a == "1:a:0"));
}

#[test]
fn encode_frame_size_is_checked() {
    assert!(check_encode_frame(3, 16, 16).is_ok());
    match check_encode_frame(3, 15, 16) {
        Err(VideoError::InvalidInput(m)) => assert_eq!(m, "encode frame 3 size 15 != 16"),
        _ => panic!("expected invalid input"),
    }
}
