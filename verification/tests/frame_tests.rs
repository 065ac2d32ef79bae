use rusthesia::{evaluate_measurement, Sdl2Timing};

#[test]
fn it_works() {
    assert_eq!(2 + 2, 4);
}

#[test]
fn uniform_intervals_are_accepted_as_vsync() {
    // Eighteen perfectly uniform 16.6 ms present intervals inside a
    // 300 ms window: a vsync signal with that exact frame period.
    let v = vec![16_600u64; 18];
    let r = evaluate_measurement(v.clone(), 300_000);
    assert_eq!(r, Some(16_600));
    // Within five percent of the 60 Hz period.
    let got = r.unwrap() as i64;
    assert!((got - 16_667).abs() * 20 <= 16_667);

    let mut st = Sdl2Timing::new(20_000);
    st.finish_measurement(v, 300_000);
    assert!(st.has_vsync);
    assert!(st.measured);
    assert_eq!(st.opt_us_per_frame, Some(16_600));
    assert_eq!(st.get_us_per_frame(), 16_600);
}

#[test]
fn jittery_intervals_are_rejected() {
    // Highly jittery, non-periodic intervals: no vsync signal.
    let v = vec![6_000u64, 12_000, 20_000, 30_000, 45_000, 70_000, 99_000];
    assert_eq!(evaluate_measurement(v.clone(), 300_000), None);
    let mut st = Sdl2Timing::new(16_667);
    st.finish_measurement(v, 300_000);
    assert!(!st.has_vsync);
    assert_eq!(st.opt_us_per_frame, None);
    assert_eq!(st.get_us_per_frame(), 16_667);
}

#[test]
fn too_few_samples_are_no_signal() {
    assert_eq!(evaluate_measurement(vec![16_600, 16_600], 300_000), None);
    assert_eq!(evaluate_measurement(vec![], 300_000), None);
}

#[test]
fn sparse_samples_are_no_signal() {
    // Uniform and plausible, but covering far less than a third of the
    // measurement window.
    let v = vec![16_600u64, 16_600, 16_600];
    assert_eq!(evaluate_measurement(v, 300_000), None);
}

#[test]
fn outliers_are_trimmed_around_the_median() {
    // One hiccup among uniform samples must not sway the result.
    let mut v = vec![16_600u64; 17];
    v.push(40_000);
    assert_eq!(evaluate_measurement(v, 300_000), Some(16_600));
}

#[test]
fn frame_wait_counts_down_and_overruns_are_lost_frames() {
    let mut st = Sdl2Timing::new(10_000);
    // No base instant yet: one is installed, nothing to wait for.
    assert_eq!(st.us_till_next_frame(50_000), 0);
    assert_eq!(st.opt_base_time_us, Some(50_000));
    // 4 ms into a 10 ms frame: 6 ms remain, less the 1 ms reserve.
    assert_eq!(st.us_till_next_frame(54_000), 5_000);
    assert_eq!(st.lost_frames_cnt, 0);
    // Less than the reserve left: no wait.
    assert_eq!(st.us_till_next_frame(59_500), 0);
    // Deadline missed: a lost frame, no wait.
    assert_eq!(st.us_till_next_frame(61_000), 0);
    assert_eq!(st.lost_frames_cnt, 1);
}

#[test]
fn processing_budget_reserves_the_present_cost() {
    let mut st = Sdl2Timing::new(10_000);
    st.us_till_next_frame(0);
    st.clear_present_avg_us = 2_000;
    // 7 ms remain minus 1 ms reserve = 6 ms; minus 1.5 * 2 ms = 3 ms.
    assert_eq!(st.us_processing_left(3_000), 3_000);
}

#[test]
fn base_time_moves_one_frame_at_a_time() {
    let mut st = Sdl2Timing::new(10_000);
    st.us_till_next_frame(7_000);
    st.advance_base_time();
    assert_eq!(st.opt_base_time_us, Some(17_000));
    st.clear_base_time();
    assert_eq!(st.opt_base_time_us, None);
}

#[test]
fn samples_build_named_histograms() {
    let mut st = Sdl2Timing::new(10_000);
    let (dt, avg) = st.sample("render".to_string(), 1_000);
    assert_eq!((dt, avg), (1_000, 1_000));
    let (dt, avg) = st.sample("input".to_string(), 1_400);
    assert_eq!((dt, avg), (400, 400));
    let (dt, avg) = st.sample("render".to_string(), 3_400);
    assert_eq!(dt, 2_000);
    assert_eq!(avg, 1_500);
    assert_eq!(st.measures.len(), 2);
    assert_eq!(st.measures[0].0, "render");
    assert_eq!(st.measures[0].1.cnt, 2);
    assert_eq!(st.measures[0].1.us_min, 1_000);
    assert_eq!(st.measures[0].1.us_max, 2_000);
    assert_eq!(st.measures[0].1.us_sum, 3_000);
    st.clear();
    assert_eq!(st.measures.len(), 0);
}
