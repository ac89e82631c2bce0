use rhema::ndi::{
    frame_report_due, library_candidates, library_not_found, HostOs, NdiAlphaMode, NdiError, NdiFrameRate, NdiResolution, NdiSession,
    NdiSessionInfo, NdiStartRequest,
};

fn request(name: &str, alpha_mode: NdiAlphaMode) -> NdiStartRequest {
    NdiStartRequest {
        source_name: name.to_string(),
        resolution: NdiResolution::R720p,
        frame_rate: NdiFrameRate::Fps30,
        alpha_mode,
    }
}

#[test]
fn resolutions_and_rates() {
    assert_eq!(NdiResolution::R720p.dimensions(), (1280, 720));
    assert_eq!(NdiResolution::R1080p.dimensions(), (1920, 1080));
    assert_eq!(NdiResolution::R4k.dimensions(), (3840, 2160));
    assert_eq!(NdiFrameRate::Fps24.fps(), 24);
    assert_eq!(NdiFrameRate::Fps30.fps(), 30);
    assert_eq!(NdiFrameRate::Fps60.fps(), 60);
}

#[test]
fn session_info_trims_and_refuses_empty_names() {
    let info = NdiSessionInfo::from_request(&request("  Rhema Main \n", NdiAlphaMode::StraightAlpha)).unwrap();
    assert_eq!(info.source_name, "Rhema Main");
    assert_eq!((info.width, info.height, info.fps), (1280, 720, 30));
    let err = NdiSessionInfo::from_request(&request(" \t ", NdiAlphaMode::NoneOpaque)).unwrap_err();
    assert!(matches!(err, NdiError::EmptySourceName));
    assert_eq!(err.message(), "NDI source name must not be empty");
}

fn small_session(alpha_mode: NdiAlphaMode) -> NdiSession {
    let mut info = NdiSessionInfo::from_request(&request("out", alpha_mode)).unwrap();
    info.width = 2;
    info.height = 1;
    NdiSession::new(info)
}

#[test]
fn frames_are_converted_to_bgra() {
    let mut s = small_session(NdiAlphaMode::NoneOpaque);
    assert_eq!(s.frame_buffer, vec![0; 8]);
    s.prepare_frame_rgba(2, 1, vec![1, 2, 3, 4, 5, 6, 7, 8]).unwrap();
    assert_eq!(s.frame_buffer, vec![3, 2, 1, 255, 7, 6, 5, 255]);
    let mut s = small_session(NdiAlphaMode::PremultipliedAlpha);
    s.prepare_frame_rgba(2, 1, vec![1, 2, 3, 4, 5, 6, 7, 8]).unwrap();
    assert_eq!(s.frame_buffer, vec![3, 2, 1, 4, 7, 6, 5, 8]);
    assert_eq!(s.record_frame_sent(), 1);
}

#[test]
fn bad_frames_are_refused() {
    let mut s = small_session(NdiAlphaMode::StraightAlpha);
    let err = s.prepare_frame_rgba(3, 1, vec![0; 12]).unwrap_err();
    assert!(matches!(err, NdiError::FrameDimensionsMismatch { expected_width: 2, expected_height: 1 }));
    assert_eq!(err.message(), "Frame dimensions do not match active NDI settings (2x1)");
    let err = s.prepare_frame_rgba(2, 1, vec![0; 7]).unwrap_err();
    assert!(matches!(err, NdiError::InvalidFrameBufferSize { width: 2, height: 1 }));
    assert_eq!(err.message(), "Frame buffer size is invalid for dimensions 2x1");
    assert_eq!(s.frame_buffer, vec![0; 8]);
    assert_eq!(s.frame_count, 0);
}

#[test]
fn video_format_values() {
    let info = NdiSessionInfo::from_request(&request("out", NdiAlphaMode::NoneOpaque)).unwrap();
    let s = NdiSession::new(info);
    let f = s.video_format();
    assert_eq!((f.xres, f.yres, f.frame_rate_n, f.frame_rate_d, f.line_stride_in_bytes), (1280, 720, 30000, 1001, 5120));
    assert_eq!(f.fourcc, u32::from_le_bytes(*b"BGRA"));
    assert_eq!(s.frame_buffer.len(), 1280 * 720 * 4);
}

#[test]
fn progress_reports() {
    assert!(frame_report_due(1));
    assert!(!frame_report_due(2));
    assert!(frame_report_due(300));
    assert!(frame_report_due(600));
    assert!(!frame_report_due(301));
}

#[test]
fn ndi_error_messages() {
    let e = NdiError::SymbolLoad { symbol: "NDIlib_initialize", message: "missing".to_string() };
    assert_eq!(e.message(), "Failed to load symbol NDIlib_initialize: missing");
    assert_eq!(NdiError::LibraryNotFound("a, b".to_string()).message(), "Unable to locate NDI library at a, b");
    assert_eq!(NdiError::SessionNotActive.message(), "NDI session is not active");
}

#[test]
fn library_candidates_and_not_found_message() {
    let c = library_candidates(HostOs::Other);
    assert_eq!(c.len(), 3);
    let e = library_not_found(&c);
    assert_eq!(
        e.message(),
        "Unable to locate NDI library at sdk/ndi/linux/libndi.so, sdk/ndi/linux/x86_64/libndi.so.6, sdk/ndi/linux/libndi.so.6"
    );
    assert_eq!(library_candidates(HostOs::MacOs), vec!["sdk/ndi/macos/libndi.dylib"]);
    assert!(matches!(library_not_found(&vec![]), NdiError::LibraryNotFound(s) if s.is_empty()));
}
