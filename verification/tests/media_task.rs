use synthizer::loop_spec::LoopSpec;
use synthizer::media_task::{MediaAction, MediaCommand, MediaTaskState};

#[test]
fn starts_paused_and_follows_commands() {
    let mut t = MediaTaskState::new();
    assert!(!t.should_fill());
    assert_eq!(t.on_command(MediaCommand::Play), MediaAction::Nothing);
    assert!(t.should_fill());
    assert_eq!(t.on_command(MediaCommand::Seek(42)), MediaAction::Seek(42));
    assert!(t.should_fill());
    assert_eq!(t.on_command(MediaCommand::SetLooping(LoopSpec::all())), MediaAction::SetLooping(LoopSpec::all()));
    assert_eq!(t.on_command(MediaCommand::Pause), MediaAction::Nothing);
    assert!(!t.should_fill());
}

#[test]
fn stopping_is_for_good() {
    let mut t = MediaTaskState::new();
    t.on_command(MediaCommand::Play);
    t.stop();
    assert!(!t.should_fill());
    t.on_command(MediaCommand::Play);
    assert!(!t.should_fill());
    assert!(!t.running);
}
