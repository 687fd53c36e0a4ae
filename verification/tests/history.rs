use snowflake_sim::sim::SnowflakeSim;
use snowflake_sim::sim_history::{HistoryError, SimStateHistory};
use std::io::Write;

const GRID_WIDTH: usize = 100;
const GRID_HEIGHT: usize = 100;
const ITERATIONS: usize = 50;

fn bits(value: f64) -> u64 {
    value.to_bits()
}

/// Compare two simulation states
fn compare_sims(sim1: &SnowflakeSim, sim2: &SnowflakeSim) -> bool {
    for y in 0..GRID_HEIGHT {
        for x in 0..GRID_WIDTH {
            let water1 = f64::from_bits(sim1.get_water(x, y).unwrap());
            let water2 = f64::from_bits(sim2.get_water(x, y).unwrap());
            if (water1 - water2).abs() > f64::EPSILON {
                return false;
            }
        }
    }
    true
}

#[test]
fn test_history_tracking() {
    let mut sim1 = SnowflakeSim::new(GRID_WIDTH, GRID_HEIGHT, bits(1.0), bits(0.4), bits(0.0001));
    sim1.set_water(GRID_WIDTH / 2 - 1, GRID_HEIGHT / 2 - 1, bits(1.0)).unwrap();
    sim1.set_random_seed(12831321);

    let mut tracker = SimStateHistory::new();
    tracker.init_tracking(&sim1);

    // Run simulation 1 and track the state
    for i in 0..ITERATIONS {
        sim1.step();
        if i == 8 {
            sim1.set_vapor_diffusion(bits(0.9));
            sim1.set_vapor_diffusion_rand(bits(0.3));
        } else if i == 15 {
            sim1.set_vapor_addition(bits(0.01));
        } else if i == 32 {
            sim1.set_vapor_addition(bits(0.001));
        }
        assert!(tracker.can_track(&sim1));
        tracker.track_tick(&sim1);
    }

    // Replay sim1 in sim2
    let mut sim2 = tracker.init_playback();

    for _ in 0..ITERATIONS {
        sim2.step();
        tracker.playback_tick(&mut sim2);
    }

    // Make sure sim1 and sim2 are the same
    // This means that all the parameters were reproduced
    // correctly
    assert!(compare_sims(&sim1, &sim2));
}

fn le_timeline(entries: &[(usize, f64)]) -> Vec<u8> {
    let mut bytes = (entries.len() as u64).to_le_bytes().to_vec();
    for (tick, value) in entries {
        bytes.extend_from_slice(&(*tick as u64).to_le_bytes());
        bytes.extend_from_slice(&value.to_bits().to_le_bytes());
    }
    bytes
}

/// The layout of a history, field by field, written out by hand.
fn layout(
    timelines: [&[(usize, f64)]; 4],
    seed: u64,
    size: (u64, u64),
    start_filled: &[(u64, u64)],
) -> Vec<u8> {
    let mut bytes = Vec::new();
    for timeline in timelines {
        bytes.extend(le_timeline(timeline));
    }
    bytes.extend_from_slice(&seed.to_le_bytes());
    bytes.extend_from_slice(&size.0.to_le_bytes());
    bytes.extend_from_slice(&size.1.to_le_bytes());
    bytes.extend_from_slice(&(start_filled.len() as u64).to_le_bytes());
    for (x, y) in start_filled {
        bytes.extend_from_slice(&x.to_le_bytes());
        bytes.extend_from_slice(&y.to_le_bytes());
    }
    bytes
}

fn pack(bytes: &[u8]) -> String {
    let mut encoder = flate2::write::ZlibEncoder::new(Vec::new(), flate2::Compression::best());
    encoder.write_all(bytes).unwrap();
    base64::encode_config(encoder.finish().unwrap(), base64::URL_SAFE_NO_PAD)
}

fn unpack(text: &str) -> Vec<u8> {
    let stream = base64::decode_config(text, base64::URL_SAFE_NO_PAD).unwrap();
    let mut decoder = flate2::write::ZlibDecoder::new(Vec::new());
    decoder.write_all(&stream).unwrap();
    decoder.finish().unwrap()
}

fn tracked_run() -> (SnowflakeSim, SimStateHistory) {
    let mut sim = SnowflakeSim::new(12, 10, bits(1.0), bits(0.4), bits(0.0001));
    sim.set_water(5, 4, bits(1.0)).unwrap();
    sim.set_water(2, 7, bits(1.0)).unwrap();
    sim.set_random_seed(12831321);
    let mut tracker = SimStateHistory::new();
    tracker.init_tracking(&sim);
    for i in 0..40 {
        sim.step();
        if i == 8 {
            sim.set_vapor_diffusion(bits(0.9));
            sim.set_vapor_diffusion_rand(bits(0.3));
        } else if i == 15 {
            sim.set_vapor_addition(bits(0.01));
        } else if i == 32 {
            sim.set_vapor_addition(bits(0.001));
            sim.set_background_vapor(bits(0.45));
        }
        assert!(tracker.can_track(&sim));
        tracker.track_tick(&sim);
    }
    (sim, tracker)
}

fn assert_same_history(a: &SimStateHistory, b: &SimStateHistory) {
    assert_eq!(a.seed(), b.seed());
    assert_eq!(a.size(), b.size());
    assert_eq!(a.start_filled(), b.start_filled());
    assert_eq!(a.alpha_history().entries(), b.alpha_history().entries());
    assert_eq!(a.beta_history().entries(), b.beta_history().entries());
    assert_eq!(a.gamma_history().entries(), b.gamma_history().entries());
    assert_eq!(a.alpha_rand_history().entries(), b.alpha_rand_history().entries());
}

#[test]
fn a_new_history_holds_nothing() {
    let history = SimStateHistory::new();
    assert!(history.is_blank());
    assert!(!history.is_tracking());
    assert_eq!(history.seed(), 0);
    assert_eq!(history.size(), (0, 0));
    assert!(history.start_filled().is_empty());
    assert_eq!(history.alpha_history().len(), 0);
    assert_eq!(history.beta_history().len(), 0);
    assert_eq!(history.gamma_history().len(), 0);
    assert_eq!(history.alpha_rand_history().len(), 0);
}

#[test]
fn tracking_begins_with_size_seed_frozen_cells_and_a_first_tick() {
    let mut sim = SnowflakeSim::new(6, 5, bits(1.0), bits(0.4), bits(0.0001));
    sim.set_water(4, 3, bits(1.0)).unwrap();
    sim.set_water(1, 3, bits(2.0)).unwrap();
    sim.set_water(5, 0, bits(f64::INFINITY)).unwrap();
    sim.set_water(0, 0, bits(0.99)).unwrap();
    sim.set_water(3, 3, bits(f64::NAN)).unwrap();
    sim.set_random_seed(99);
    sim.set_vapor_diffusion_rand(bits(0.2));
    let mut tracker = SimStateHistory::new();
    tracker.init_tracking(&sim);
    assert!(tracker.is_tracking());
    assert!(!tracker.is_blank());
    assert_eq!(tracker.size(), (6, 5));
    assert_eq!(tracker.seed(), 99);
    assert_eq!(tracker.start_filled(), &vec![(5, 0), (1, 3), (4, 3)]);
    assert_eq!(tracker.alpha_history().entries(), &vec![(0usize, bits(1.0))]);
    assert_eq!(tracker.beta_history().entries(), &vec![(0usize, bits(0.4))]);
    assert_eq!(tracker.gamma_history().entries(), &vec![(0usize, bits(0.0001))]);
    assert_eq!(tracker.alpha_rand_history().entries(), &vec![(0usize, bits(0.2))]);
}

#[test]
fn tracking_can_begin_in_the_middle_of_a_run() {
    let mut sim = SnowflakeSim::new(4, 4, bits(1.0), bits(0.4), bits(0.0001));
    for _ in 0..3 {
        sim.step();
    }
    let mut tracker = SimStateHistory::new();
    tracker.init_tracking(&sim);
    assert_eq!(tracker.alpha_history().entries(), &vec![(3usize, bits(1.0))]);
    assert_eq!(tracker.alpha_history().get(0), bits(1.0));
}

#[test]
fn frozen_cells_are_not_looked_for_where_the_background_is_one_or_more() {
    for beta in [1.0, 1.5, f64::INFINITY, f64::NAN] {
        let mut sim = SnowflakeSim::new(4, 4, bits(1.0), bits(beta), bits(0.0001));
        sim.set_water(1, 1, bits(3.0)).unwrap();
        let mut tracker = SimStateHistory::new();
        tracker.init_tracking(&sim);
        assert!(tracker.start_filled().is_empty(), "{:?}", beta);
        assert!(tracker.is_tracking());
    }
    let mut sim = SnowflakeSim::new(4, 4, bits(1.0), bits(-2.0), bits(0.0001));
    sim.set_water(1, 1, bits(3.0)).unwrap();
    let mut tracker = SimStateHistory::new();
    tracker.init_tracking(&sim);
    assert_eq!(tracker.start_filled(), &vec![(1, 1)]);
}

#[test]
fn a_tick_adds_an_entry_for_each_parameter_that_changed() {
    let mut sim = SnowflakeSim::new(3, 3, bits(1.0), bits(0.4), bits(0.0001));
    let mut tracker = SimStateHistory::new();
    tracker.init_tracking(&sim);
    sim.step();
    tracker.track_tick(&sim);
    sim.step();
    sim.set_vapor_diffusion(bits(0.9));
    sim.set_background_vapor_rand(bits(0.5));
    sim.set_vapor_addition_rand(bits(0.5));
    tracker.track_tick(&sim);
    sim.step();
    sim.set_background_vapor(bits(0.3));
    sim.set_vapor_addition(bits(0.2));
    sim.set_vapor_diffusion_rand(bits(0.1));
    tracker.track_tick(&sim);
    assert_eq!(tracker.alpha_history().entries(), &vec![(0usize, bits(1.0)), (2usize, bits(0.9))]);
    assert_eq!(tracker.beta_history().entries(), &vec![(0usize, bits(0.4)), (3usize, bits(0.3))]);
    assert_eq!(tracker.gamma_history().entries(), &vec![(0usize, bits(0.0001)), (3usize, bits(0.2))]);
    assert_eq!(
        tracker.alpha_rand_history().entries(),
        &vec![(0usize, bits(0.0)), (3usize, bits(0.1))]
    );
}

#[test]
fn a_change_cannot_be_tracked_twice_at_one_tick() {
    let mut sim = SnowflakeSim::new(3, 3, bits(1.0), bits(0.4), bits(0.0001));
    let mut tracker = SimStateHistory::new();
    tracker.init_tracking(&sim);
    assert!(tracker.can_track(&sim));
    tracker.track_tick(&sim);
    assert_eq!(tracker.alpha_history().len(), 1);
    sim.set_vapor_addition(bits(0.5));
    assert!(!tracker.can_track(&sim));
    sim.step();
    assert!(tracker.can_track(&sim));
}

#[test]
fn ticks_past_sixteen_bits_are_tracked_and_played_back() {
    let mut sim = SnowflakeSim::new(0, 0, bits(1.0), bits(0.4), bits(0.0001));
    let mut tracker = SimStateHistory::new();
    tracker.init_tracking(&sim);
    for _ in 0..65535 {
        sim.step();
    }
    sim.set_vapor_diffusion(bits(0.5));
    assert!(tracker.can_track(&sim));
    tracker.track_tick(&sim);
    sim.step();
    assert!(tracker.can_track(&sim));
    tracker.track_tick(&sim);
    sim.set_vapor_diffusion(bits(0.25));
    for _ in 0..5000 {
        sim.step();
    }
    assert!(tracker.can_track(&sim));
    tracker.track_tick(&sim);
    assert_eq!(
        tracker.alpha_history().entries(),
        &vec![(0usize, bits(1.0)), (65535usize, bits(0.5)), (70536usize, bits(0.25))]
    );
    let read = SimStateHistory::deserialize_from_str(tracker.serialize_to_str()).unwrap();
    assert_same_history(&tracker, &read);
    sim.set_vapor_diffusion(bits(9.0));
    read.playback_tick(&mut sim);
    assert_eq!(sim.vapor_diffusion(), bits(0.25));
    let mut replay = read.init_playback();
    for _ in 0..65535 {
        replay.step();
    }
    read.playback_tick(&mut replay);
    assert_eq!(replay.vapor_diffusion(), bits(0.5));
}

#[test]
fn tracking_can_begin_past_sixteen_bits_of_steps() {
    let mut sim = SnowflakeSim::new(0, 0, bits(1.0), bits(0.4), bits(0.0001));
    for _ in 0..65537 {
        sim.step();
    }
    let mut tracker = SimStateHistory::new();
    tracker.init_tracking(&sim);
    assert_eq!(tracker.alpha_history().entries(), &vec![(65537usize, bits(1.0))]);
    assert_eq!(tracker.alpha_rand_history().entries(), &vec![(65537usize, bits(0.0))]);
    assert!(tracker.can_track(&sim));
    tracker.track_tick(&sim);
    assert_eq!(tracker.beta_history().len(), 1);
}

#[test]
fn playback_starts_as_the_run_started() {
    let mut sim = SnowflakeSim::new(6, 5, bits(0.8), bits(0.4), bits(0.0001));
    sim.set_water(4, 3, bits(1.0)).unwrap();
    sim.set_water(0, 0, bits(1.0)).unwrap();
    sim.set_random_seed(41);
    sim.set_vapor_diffusion_rand(bits(0.25));
    let mut tracker = SimStateHistory::new();
    tracker.init_tracking(&sim);
    let replay = tracker.init_playback();
    assert_eq!(replay.width(), 6);
    assert_eq!(replay.height(), 5);
    assert_eq!(replay.seed(), 41);
    assert_eq!(replay.iteration_count(), 0);
    assert_eq!(replay.vapor_diffusion(), bits(0.8));
    assert_eq!(replay.background_vapor(), bits(0.4));
    assert_eq!(replay.vapor_addition(), bits(0.0001));
    assert_eq!(replay.vapor_diffusion_rand(), bits(0.25));
    assert_eq!(replay.background_vapor_rand(), bits(0.0));
    assert_eq!(replay.vapor_addition_rand(), bits(0.0));
    for py in 0..7 {
        for px in 0..8 {
            assert_eq!(replay.cell_at(px, py), sim.cell_at(px, py));
            assert_eq!(replay.next_cell_at(px, py), sim.next_cell_at(px, py));
        }
    }
}

#[test]
fn playback_freezes_the_recorded_cells_at_one() {
    let mut sim = SnowflakeSim::new(4, 4, bits(1.0), bits(0.4), bits(0.0001));
    sim.set_water(2, 2, bits(7.0)).unwrap();
    let mut tracker = SimStateHistory::new();
    tracker.init_tracking(&sim);
    let replay = tracker.init_playback();
    assert_eq!(replay.get_water(2, 2), Ok(bits(1.0)));
    assert!(replay.cell_at(3, 3).unwrap().receptive);
    assert!(replay.next_cell_at(4, 3).unwrap().receptive);
}

#[test]
fn a_playback_tick_puts_the_recorded_parameters_in_force() {
    let (_, tracker) = tracked_run();
    let mut replay = tracker.init_playback();
    replay.set_background_vapor_rand(bits(0.75));
    for tick in 1..=45usize {
        replay.step();
        replay.set_vapor_diffusion(bits(123.0));
        replay.set_vapor_addition(bits(123.0));
        tracker.playback_tick(&mut replay);
        assert_eq!(replay.iteration_count(), tick);
        let alpha = if tick >= 9 { 0.9 } else { 1.0 };
        let alpha_rand = if tick >= 9 { 0.3 } else { 0.0 };
        let gamma = if tick >= 33 {
            0.001
        } else if tick >= 16 {
            0.01
        } else {
            0.0001
        };
        let beta = if tick >= 33 { 0.45 } else { 0.4 };
        assert_eq!(replay.vapor_diffusion(), bits(alpha));
        assert_eq!(replay.vapor_diffusion_rand(), bits(alpha_rand));
        assert_eq!(replay.vapor_addition(), bits(gamma));
        assert_eq!(replay.background_vapor(), bits(beta));
        assert_eq!(replay.background_vapor_rand(), bits(0.75));
    }
}

#[test]
fn a_replay_gives_the_run_back_bit_for_bit() {
    let (sim, tracker) = tracked_run();
    let mut replay = tracker.init_playback();
    for _ in 0..40 {
        replay.step();
        tracker.playback_tick(&mut replay);
    }
    for py in 0..12 {
        for px in 0..14 {
            assert_eq!(replay.cell_at(px, py), sim.cell_at(px, py));
        }
    }
}

#[test]
fn a_history_comes_back_from_its_string() {
    let (sim, tracker) = tracked_run();
    let text = tracker.serialize_to_str();
    let read = SimStateHistory::deserialize_from_str(text.clone()).unwrap();
    assert_same_history(&tracker, &read);
    assert_eq!(read.serialize_to_str(), text);
    assert_eq!(read.seed(), 12831321);
    assert_eq!(read.size(), (12, 10));
    assert_eq!(read.start_filled(), &vec![(5, 4), (2, 7)]);
    assert_eq!(read.alpha_history().entries(), &vec![(0usize, bits(1.0)), (9usize, bits(0.9))]);
    let mut replay = read.init_playback();
    for _ in 0..40 {
        replay.step();
        read.playback_tick(&mut replay);
    }
    for y in 0..10 {
        for x in 0..12 {
            assert_eq!(replay.get_water(x, y), sim.get_water(x, y));
        }
    }
}

#[test]
fn a_history_that_holds_nothing_comes_back_from_its_string() {
    let blank = SimStateHistory::new();
    let read = SimStateHistory::deserialize_from_str(blank.serialize_to_str()).unwrap();
    assert_same_history(&blank, &read);
    assert!(read.is_blank());
}

#[test]
fn the_string_is_base64_of_the_compressed_layout() {
    let (_, tracker) = tracked_run();
    let expected = layout(
        [
            &[(0, 1.0), (9, 0.9)],
            &[(0, 0.4), (33, 0.45)],
            &[(0, 0.0001), (16, 0.01), (33, 0.001)],
            &[(0, 0.0), (9, 0.3)],
        ],
        12831321,
        (12, 10),
        &[(5, 4), (2, 7)],
    );
    let text = tracker.serialize_to_str();
    assert_eq!(unpack(&text), expected);
    assert_eq!(text, pack(&expected));
    assert!(text.bytes().all(|c| c.is_ascii_alphanumeric() || c == b'-' || c == b'_'));
    let stream = base64::decode_config(&text, base64::URL_SAFE_NO_PAD).unwrap();
    assert_eq!(text.chars().count(), (4 * stream.len() + 2) / 3);
    assert_ne!(text.as_bytes(), &expected[..]);
    assert_ne!(
        base64::decode_config(&text, base64::URL_SAFE_NO_PAD).unwrap(),
        expected
    );
}

#[test]
fn the_string_of_a_history_that_holds_nothing() {
    let text = SimStateHistory::new().serialize_to_str();
    assert_eq!(unpack(&text), vec![0u8; 64]);
    assert_eq!(text, pack(&[0u8; 64]));
    assert_eq!(text, "eNqlwIEAAAAAgKD8qYc4ngAAQAAB");
}

#[test]
fn a_layout_written_by_hand_is_read() {
    let bytes = layout(
        [&[(0, 1.0), (9, 0.9)], &[(0, 0.4)], &[(2, 0.0001)], &[(0, 0.0), (9, 0.3), (10, 0.0)]],
        77,
        (30, 20),
        &[(0, 0), (29, 19), (4, 4)],
    );
    let read = SimStateHistory::deserialize_from_str(pack(&bytes)).unwrap();
    assert_eq!(read.seed(), 77);
    assert_eq!(read.size(), (30, 20));
    assert_eq!(read.start_filled(), &vec![(0, 0), (29, 19), (4, 4)]);
    assert_eq!(read.alpha_history().entries(), &vec![(0usize, bits(1.0)), (9usize, bits(0.9))]);
    assert_eq!(read.beta_history().entries(), &vec![(0usize, bits(0.4))]);
    assert_eq!(read.gamma_history().entries(), &vec![(2usize, bits(0.0001))]);
    assert_eq!(read.alpha_rand_history().len(), 3);
    assert!(read.is_tracking());
    let replay = read.init_playback();
    assert_eq!(replay.vapor_addition(), bits(0.0001));
    assert_eq!(replay.get_water(29, 19), Ok(bits(1.0)));
}

#[test]
fn text_that_is_not_base64_is_refused() {
    for text in ["!!!", "A", "not a history", "eNpj YKAu", "eNqlwIEAAAAAgKD8qYc4ngAAQAAB\n", "+/+/"] {
        assert_eq!(
            SimStateHistory::deserialize_from_str(text.to_string()).err(),
            Some(HistoryError::Decode),
            "{:?}",
            text
        );
    }
}

#[test]
fn bytes_that_are_no_stream_are_refused() {
    let text = base64::encode_config([1u8, 2, 3, 4, 5], base64::URL_SAFE_NO_PAD);
    assert_eq!(
        SimStateHistory::deserialize_from_str(text).err(),
        Some(HistoryError::Decompress)
    );
    let mut stream =
        base64::decode_config(SimStateHistory::new().serialize_to_str(), base64::URL_SAFE_NO_PAD)
            .unwrap();
    stream[4] ^= 0xFF;
    stream[5] ^= 0xFF;
    let text = base64::encode_config(&stream, base64::URL_SAFE_NO_PAD);
    assert_eq!(
        SimStateHistory::deserialize_from_str(text).err(),
        Some(HistoryError::Decompress)
    );
}

#[test]
fn a_stream_followed_by_other_bytes_is_refused() {
    let (_, tracker) = tracked_run();
    let stream =
        base64::decode_config(tracker.serialize_to_str(), base64::URL_SAFE_NO_PAD).unwrap();
    for extra in [vec![0u8], vec![1, 2, 3], stream.clone()] {
        let mut longer = stream.clone();
        longer.extend_from_slice(&extra);
        let text = base64::encode_config(&longer, base64::URL_SAFE_NO_PAD);
        assert_eq!(
            SimStateHistory::deserialize_from_str(text).err(),
            Some(HistoryError::Decompress)
        );
    }
}

#[test]
fn a_stream_with_a_wrong_checksum_is_refused() {
    let (_, tracker) = tracked_run();
    let mut stream =
        base64::decode_config(tracker.serialize_to_str(), base64::URL_SAFE_NO_PAD).unwrap();
    let last = stream.len() - 1;
    stream[last] ^= 0x01;
    let text = base64::encode_config(&stream, base64::URL_SAFE_NO_PAD);
    assert_eq!(
        SimStateHistory::deserialize_from_str(text).err(),
        Some(HistoryError::Decompress)
    );
}

#[test]
fn a_stream_cut_short_is_refused_wherever_it_is_cut() {
    let (_, tracker) = tracked_run();
    let stream =
        base64::decode_config(tracker.serialize_to_str(), base64::URL_SAFE_NO_PAD).unwrap();
    assert!(stream.len() > 20);
    for kept in 0..stream.len() {
        let text = base64::encode_config(&stream[..kept], base64::URL_SAFE_NO_PAD);
        assert_eq!(
            SimStateHistory::deserialize_from_str(text).err(),
            Some(HistoryError::Decompress),
            "cut after {} bytes",
            kept
        );
    }
    let whole = base64::encode_config(&stream, base64::URL_SAFE_NO_PAD);
    assert!(SimStateHistory::deserialize_from_str(whole).is_ok());
}

#[test]
fn a_stream_that_lacks_only_its_checksum_is_refused() {
    let stream = base64::decode_config(
        SimStateHistory::new().serialize_to_str(),
        base64::URL_SAFE_NO_PAD,
    )
    .unwrap();
    for missing in 1..=4 {
        let text =
            base64::encode_config(&stream[..stream.len() - missing], base64::URL_SAFE_NO_PAD);
        assert_eq!(
            SimStateHistory::deserialize_from_str(text).err(),
            Some(HistoryError::Decompress)
        );
    }
}

#[test]
fn the_empty_string_is_refused_as_a_stream() {
    assert_eq!(
        SimStateHistory::deserialize_from_str(String::new()).err(),
        Some(HistoryError::Decompress)
    );
}

#[test]
fn bytes_that_are_no_layout_are_refused() {
    assert_eq!(
        SimStateHistory::deserialize_from_str(pack(b"abc")).err(),
        Some(HistoryError::Schema)
    );
    assert_eq!(
        SimStateHistory::deserialize_from_str(pack(&[0u8; 63])).err(),
        Some(HistoryError::Schema)
    );
    let mut long_list = layout([&[], &[], &[], &[]], 0, (1, 1), &[]);
    long_list[0] = 2;
    assert_eq!(
        SimStateHistory::deserialize_from_str(pack(&long_list)).err(),
        Some(HistoryError::Schema)
    );
    assert!(SimStateHistory::deserialize_from_str(pack(&[0u8; 64])).is_ok());
}

#[test]
fn fields_that_are_no_history_are_refused() {
    let one: &[(usize, f64)] = &[(0, 1.0)];
    let cases = [
        layout([&[(5, 1.0), (5, 0.9)], one, one, one], 1, (4, 4), &[]),
        layout([one, &[(5, 1.0), (2, 0.9)], one, one], 1, (4, 4), &[]),
        layout([one, one, &[(1, 0.5), (2, 0.5)], one], 1, (4, 4), &[]),
        layout([one, one, one, &[(1, 0.0), (2, -0.0)]], 1, (4, 4), &[]),
        layout([one, one, one, one], 1, (4, 4), &[(4, 0)]),
        layout([one, one, one, one], 1, (4, 4), &[(1, 1), (0, 4)]),
        layout([one, one, one, one], 1, (0, 0), &[(0, 0)]),
        layout([one, one, one, one], 1, (u64::MAX, 4), &[]),
        layout([one, one, one, one], 1, (1 << 40, 1 << 40), &[]),
    ];
    for bytes in cases {
        assert_eq!(
            SimStateHistory::deserialize_from_str(pack(&bytes)).err(),
            Some(HistoryError::Schema)
        );
    }
    let good = layout([one, one, one, one], 1, (4, 4), &[(3, 3)]);
    assert!(SimStateHistory::deserialize_from_str(pack(&good)).is_ok());
}

#[test]
fn fields_are_taken_or_refused_as_a_whole() {
    let one = vec![(0usize, bits(1.0))];
    let history = SimStateHistory::from_fields(
        one.clone(),
        one.clone(),
        one.clone(),
        one.clone(),
        5,
        (3, 3),
        vec![(2, 2)],
    )
    .unwrap();
    assert_eq!(history.seed(), 5);
    assert_eq!(history.start_filled(), &vec![(2, 2)]);
    assert!(SimStateHistory::from_fields(
        one.clone(),
        one.clone(),
        one.clone(),
        one.clone(),
        5,
        (3, 3),
        vec![(3, 2)],
    )
    .is_none());
    assert!(SimStateHistory::from_fields(
        one.clone(),
        one.clone(),
        vec![(1usize, bits(1.0)), (1usize, bits(2.0))],
        one.clone(),
        5,
        (3, 3),
        vec![],
    )
    .is_none());
}

#[test]
fn frozen_cells_are_found_row_by_row() {
    let mut sim = SnowflakeSim::new(4, 3, bits(1.0), bits(0.4), bits(0.0001));
    assert!(snowflake_sim::sim_history::frozen_cells(&sim).is_empty());
    sim.set_water(3, 2, bits(1.0)).unwrap();
    sim.set_water(0, 0, bits(1.0)).unwrap();
    sim.set_water(2, 0, bits(4.0)).unwrap();
    sim.set_water(1, 1, bits(0.5)).unwrap();
    assert_eq!(
        snowflake_sim::sim_history::frozen_cells(&sim),
        vec![(0, 0), (2, 0), (3, 2)]
    );
}

#[test]
fn cells_are_held_against_the_size_of_the_domain() {
    assert!(snowflake_sim::sim_history::all_in_domain(&vec![], (0, 0)));
    assert!(snowflake_sim::sim_history::all_in_domain(&vec![(0, 0), (3, 2)], (4, 3)));
    assert!(!snowflake_sim::sim_history::all_in_domain(&vec![(0, 0), (4, 2)], (4, 3)));
    assert!(!snowflake_sim::sim_history::all_in_domain(&vec![(0, 3), (1, 1)], (4, 3)));
}

#[test]
fn going_from_one_zero_to_the_other_is_no_change() {
    let mut sim = SnowflakeSim::new(2, 2, bits(1.0), bits(0.4), bits(0.0));
    let mut tracker = SimStateHistory::new();
    tracker.init_tracking(&sim);
    sim.step();
    sim.set_vapor_addition(bits(-0.0));
    assert!(tracker.can_track(&sim));
    tracker.track_tick(&sim);
    assert_eq!(tracker.gamma_history().entries(), &vec![(0usize, bits(0.0))]);
}

#[test]
fn the_string_has_four_characters_for_three_bytes_and_no_padding() {
    let mut seen = [false; 3];
    for steps in 0..12 {
        let mut sim = SnowflakeSim::new(3, 3, bits(1.0), bits(0.4), bits(0.0001));
        let mut tracker = SimStateHistory::new();
        tracker.init_tracking(&sim);
        for step in 0..steps {
            sim.step();
            sim.set_vapor_addition(bits(0.001 * (step as f64 + 1.0)));
            tracker.track_tick(&sim);
        }
        let text = tracker.serialize_to_str();
        let stream = base64::decode_config(&text, base64::URL_SAFE_NO_PAD).unwrap();
        assert_eq!(text.len(), (4 * stream.len() + 2) / 3);
        assert!(text.bytes().all(|c| c.is_ascii_alphanumeric() || c == b'-' || c == b'_'));
        assert!(!text.contains('='));
        seen[stream.len() % 3] = true;
    }
    assert!(seen[0] && seen[1] && seen[2]);
}

#[test]
fn histories_of_many_shapes_come_back_from_their_strings() {
    for shape in 0..40usize {
        let width = shape % 7;
        let height = (shape * 3) % 5;
        let mut sim = SnowflakeSim::new(width, height, bits(1.0), bits(0.4), bits(0.0001));
        for y in 0..height {
            for x in 0..width {
                if (x * 31 + y * 17 + shape) % 4 == 0 {
                    sim.set_water(x, y, bits(1.0)).unwrap();
                }
            }
        }
        sim.set_random_seed(shape as u64 * 104729);
        let mut tracker = SimStateHistory::new();
        tracker.init_tracking(&sim);
        for step in 0..shape {
            sim.step();
            if step % 3 == 0 {
                sim.set_vapor_diffusion(bits(1.0 / (step as f64 + 2.0)));
            }
            if step % 5 == 1 {
                sim.set_background_vapor(bits(0.4 + step as f64 * 0.001));
            }
            tracker.track_tick(&sim);
        }
        let text = tracker.serialize_to_str();
        let read = SimStateHistory::deserialize_from_str(text.clone()).unwrap();
        assert_same_history(&tracker, &read);
        assert_eq!(read.serialize_to_str(), text);
    }
}
