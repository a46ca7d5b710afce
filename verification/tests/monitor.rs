use kenkoterminal::monitor::{parse_sample, system_info, MonitorStream, RawSample};

fn cpu_percent(s: &RawSample) -> f32 {
    if s.cpu_total_delta > 0 {
        ((1.0 - s.cpu_idle_delta as f32 / s.cpu_total_delta as f32) * 100.0).clamp(0.0, 100.0)
    } else {
        0.0
    }
}

#[test]
fn cpu_delta_and_mem() {
    let mut prev = None;
    // first sample seeds prev, cpu = 0
    let s0 = parse_sample("1000 900", "2000 500", &mut prev).unwrap();
    assert_eq!(cpu_percent(&s0), 0.0);
    assert_eq!(s0.mem_total_kb, 2000);
    assert_eq!(s0.mem_used_kb, 1500);
    // next: dtotal=100, didle=50 -> 50% busy
    let s1 = parse_sample("1100 950", "2000 500", &mut prev).unwrap();
    assert!((cpu_percent(&s1) - 50.0).abs() < 0.01, "cpu={}", cpu_percent(&s1));
}

#[test]
fn malformed_lines_give_no_sample_and_keep_prev() {
    let mut prev = Some((10, 5));
    assert!(parse_sample("1 2 3", "4 5", &mut prev).is_none());
    assert!(parse_sample("1 x 2", "4", &mut prev).is_none());
    assert_eq!(prev, Some((10, 5)));
    // non-numbers are skipped, like filter_map over the words
    let s = parse_sample("  20 x 9 ", "8 9", &mut prev).unwrap();
    assert_eq!(s.cpu_total_delta, 10);
    assert_eq!(s.cpu_idle_delta, 4);
    assert_eq!(s.mem_used_kb, 0);
    assert_eq!(prev, Some((20, 9)));
}

#[test]
fn stream_frames_samples_across_chunks() {
    let mut m = MonitorStream::new();
    assert!(m.feed_text("1000 900\n2000 5").is_empty());
    let out = m.feed_text("00\n__T__\n1100 9");
    assert_eq!(out.len(), 1);
    assert_eq!(out[0].mem_used_kb, 1500);
    assert_eq!(out[0].cpu_total_delta, 0);
    let out = m.feed_bytes(b"50\r\n\n2000 500\n__T__\n");
    assert_eq!(out.len(), 1);
    assert_eq!(out[0].cpu_total_delta, 100);
    assert_eq!(out[0].cpu_idle_delta, 50);
    // a marker with fewer than two lines produces nothing
    assert!(m.feed_text("only\n__T__\n").is_empty());
}

#[test]
fn probe_output_is_trimmed() {
    let info = system_info("  Linux box 6.1 \n", "\tDebian\n up 3 days\n\n");
    assert_eq!(info.uname, "Linux box 6.1");
    assert_eq!(info.os_release, "Debian\n up 3 days");
}
