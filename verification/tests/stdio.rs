use bevy::ecs::entity::Entity;
use q_proc::signals::Sig;
use q_proc::signals::SignalMsg;
use q_proc::stdio::StdErr;
use q_proc::stdio::StdOut;

#[test]
fn output_channels_round_trip_independently() {
    let target = Entity::from_raw_u32(1).expect("the test entity index should be valid");
    let stdout = vec![StdOut::new(
        target,
        vec!["first".to_string(), "second".to_string()],
    )];
    let stderr = vec![StdErr::write(target, "error")];

    let correct = stdout.len() == 1
        && stdout[0].term == target
        && stdout[0].writes == ["first", "second"]
        && stderr.len() == 1
        && stderr[0].term == target
        && stderr[0].writes == ["error"];
    assert!(
        correct,
        "unexpected stdout {stdout:?} or stderr {stderr:?}"
    );
}

#[test]
fn signal_messages_carry_their_source_target_and_kind() {
    let term = Entity::from_raw_u32(1).expect("valid");
    let target = Entity::from_raw_u32(2).expect("valid");
    let msg = SignalMsg {
        term,
        target,
        signal: Sig::Int,
    };
    let copy = msg;
    assert_eq!(copy.term, term);
    assert_eq!(copy.target, target);
    assert_eq!(copy.signal, Sig::Int);
    assert_ne!(copy.signal, Sig::Kill);
}
