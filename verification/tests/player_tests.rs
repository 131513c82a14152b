use terminal_player::config::{Config, DecoderInfo};
use terminal_player::control::{set_and_maybe_notify, ControlSignal};
use terminal_player::player::{Message, Player, Step};
use terminal_player::producer::{
    continues, end_message, frame_message, next_step, DecodeOutcome, ProducerStep,
    EXIT_DECODE_FAILURE,
};

fn config_72() -> Config {
    let args: Vec<String> = vec![String::from("player"), String::from("movie.mp4")];
    let mut cfg = Config::from_args(&args).unwrap();
    cfg.add_decoder_info(&DecoderInfo { width: 720, height: 480, frame_rate_millis: 30_000 });
    cfg
}

fn numbered(n: usize) -> Vec<String> {
    (0..n).map(|i| format!("frame {}\n", i)).collect()
}

/// Runs a whole session over `frames`; `elapsed` gives the clock reading of
/// each iteration. Returns what was rendered and the largest queue length.
fn play(frames: &[String], elapsed: &dyn Fn(usize) -> u64) -> (Player, Vec<String>, usize) {
    let mut player = Player::new(config_72());
    let mut shared = ControlSignal::Go;
    let mut next: usize = 0;
    let mut marker_sent = false;
    let mut rendered: Vec<String> = Vec::new();
    let mut longest: usize = 0;
    let mut iteration: usize = 0;
    loop {
        assert!(iteration < 100_000);
        let action = player.evaluate();
        set_and_maybe_notify(&mut shared, action);
        assert_eq!(shared, action);
        if player.wants_receive() {
            assert_eq!(action, ControlSignal::Go);
            if next < frames.len() {
                player.accept(Some(Message::Frame(frames[next].clone())));
                next += 1;
            } else {
                assert!(!marker_sent);
                player.accept(Some(end_message()));
                marker_sent = true;
            }
        }
        if player.queue_len() > longest {
            longest = player.queue_len();
        }
        assert!(player.queue_len() <= player.capacity() + 1);
        match player.tick(elapsed(iteration)) {
            Step::Render(frame) => rendered.push(frame),
            Step::Finished => break,
            Step::Skip => {}
            Step::Idle => {}
        }
        iteration += 1;
    }
    (player, rendered, longest)
}

#[test]
fn new_player_is_empty() {
    let player = Player::new(config_72());
    assert_eq!(player.queue_len(), 0);
    assert_eq!(player.capacity(), 300);
    assert!(!player.is_playing());
    assert!(!player.is_finished());
    assert!(!player.is_stream_exhausted());
    assert!(!player.wants_receive());
    assert_eq!(player.config().delta_t_ms, 33);
    assert_eq!(player.config().file_name, "movie.mp4");
}

#[test]
fn three_frame_stream() {
    let cfg = config_72();
    let mut frames: Vec<String> = Vec::new();
    let mut shade: u8 = 0;
    while frames.len() < 3 {
        let rgb: Vec<u8> = vec![shade; 720 * 480 * 3];
        assert_eq!(next_step(DecodeOutcome::Frame), ProducerStep::EncodeAndSend);
        match frame_message(&rgb, &cfg) {
            Message::Frame(text) => frames.push(text),
            Message::StreamEnded => panic!("a picture gives a frame"),
        }
        shade += 100;
    }
    assert_eq!(next_step(DecodeOutcome::Exhausted), ProducerStep::SendMarkerAndStop);
    let (player, rendered, _) = play(&frames, &|_| 33);
    assert_eq!(rendered.len(), 3);
    assert_eq!(rendered, frames);
    for frame in rendered.iter() {
        assert_eq!(frame.matches('\n').count(), 480 / cfg.sampling_rate.1);
        assert_eq!(frame.matches('\n').count(), 80);
        assert_eq!(frame.chars().count(), cfg.frame_size);
        for line in frame.lines() {
            assert_eq!(line.chars().count(), 72);
        }
    }
    assert!(rendered[0].starts_with("    "));
    assert!(rendered[1].starts_with("tttt"));
    assert!(rendered[2].starts_with("bbbb"));
    assert_eq!(player.queue_len(), 0);
    assert!(player.is_stream_exhausted());
    assert!(player.is_playing());
    assert!(player.is_finished());
    assert!(!player.wants_receive());
}

#[test]
fn frames_keep_their_order() {
    for n in [0usize, 1, 2, 50, 299, 300, 301, 1000] {
        let frames = numbered(n);
        let (player, rendered, _) = play(&frames, &|_| 40);
        assert_eq!(rendered, frames);
        assert_eq!(player.queue_len(), 0);
        assert!(player.is_finished());
    }
}

#[test]
fn order_survives_a_slow_clock() {
    let frames = numbered(700);
    let (_, rendered, longest) = play(&frames, &|i| if i % 5 == 4 { 33 } else { 0 });
    assert_eq!(rendered, frames);
    assert_eq!(longest, 290);
}

#[test]
fn queue_stays_within_capacity() {
    let frames = numbered(2000);
    let (_, rendered, longest) = play(&frames, &|i| if i < 1500 { 0 } else { 33 });
    assert_eq!(rendered, frames);
    assert!(longest <= 300 + 1);
    assert_eq!(longest, 290);
}

#[test]
fn empty_stream_ends_at_once() {
    let (player, rendered, longest) = play(&[], &|_| 33);
    assert!(rendered.is_empty());
    assert_eq!(longest, 0);
    assert!(player.is_stream_exhausted());
}

#[test]
fn closed_channel_ends_the_stream() {
    let mut player = Player::new(config_72());
    assert_eq!(player.evaluate(), ControlSignal::Go);
    assert!(player.wants_receive());
    player.accept(Some(Message::Frame(String::from("only\n"))));
    assert!(!player.wants_receive());
    assert!(matches!(player.tick(0), Step::Skip));
    assert_eq!(player.evaluate(), ControlSignal::Go);
    player.accept(None);
    assert!(player.is_stream_exhausted());
    match player.tick(33) {
        Step::Render(frame) => assert_eq!(frame, "only\n"),
        _ => panic!("the buffered frame is due"),
    }
    assert_eq!(player.evaluate(), ControlSignal::Go);
    assert!(!player.wants_receive());
    assert!(matches!(player.tick(33), Step::Finished));
    assert!(player.is_finished());
    assert!(player.is_playing());
}

#[test]
fn idle_while_nothing_has_arrived() {
    let mut player = Player::new(config_72());
    assert!(matches!(player.tick(33), Step::Idle));
    assert!(matches!(player.tick(1000), Step::Idle));
    assert!(!player.is_playing());
    assert!(!player.is_finished());
    player.evaluate();
    assert!(player.is_playing());
    assert!(!player.is_finished());
    assert!(matches!(player.tick(32), Step::Skip));
}

#[test]
fn rendering_waits_for_the_frame_interval() {
    let mut player = Player::new(config_72());
    assert!(player.should_skip_rendering(0));
    assert!(player.should_skip_rendering(32));
    assert!(!player.should_skip_rendering(33));
    assert!(!player.should_skip_rendering(u64::MAX));
    player.evaluate();
    player.accept(Some(Message::Frame(String::from("a\n"))));
    assert!(matches!(player.tick(32), Step::Skip));
    assert_eq!(player.queue_len(), 1);
    assert!(matches!(player.tick(33), Step::Render(_)));
    assert_eq!(player.queue_len(), 0);
}

#[test]
fn stop_is_asserted_when_ten_slots_are_left() {
    let mut player = Player::new(config_72());
    let mut sent: usize = 0;
    loop {
        let action = player.evaluate();
        if action == ControlSignal::Stop {
            break;
        }
        assert!(player.wants_receive());
        player.accept(Some(Message::Frame(format!("{}\n", sent))));
        sent += 1;
    }
    assert_eq!(sent, 290);
    assert_eq!(player.queue_len(), 290);
    assert!(!player.wants_receive());
    assert!(matches!(player.tick(33), Step::Render(_)));
    assert_eq!(player.evaluate(), ControlSignal::Go);
    assert!(player.wants_receive());
}

#[test]
fn producer_steps() {
    assert_eq!(next_step(DecodeOutcome::Frame), ProducerStep::EncodeAndSend);
    assert_eq!(next_step(DecodeOutcome::Exhausted), ProducerStep::SendMarkerAndStop);
    assert_eq!(next_step(DecodeOutcome::Failed), ProducerStep::Abort { exit_code: 2 });
    assert_eq!(EXIT_DECODE_FAILURE, 2);
    assert!(continues(ProducerStep::EncodeAndSend));
    assert!(!continues(ProducerStep::SendMarkerAndStop));
    assert!(!continues(ProducerStep::Abort { exit_code: 2 }));
    assert!(matches!(end_message(), Message::StreamEnded));
}
