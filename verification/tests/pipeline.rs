use dipc::cli::CardinalityError;
use dipc::pipeline::{
    Action, Event, Failure, Run, Stage, STATUS_OPERATION, STATUS_SUCCESS, STATUS_USAGE,
};

const EVENTS: [Event; 6] = [
    Event::PaletteResolved,
    Event::PaletteRejected,
    Event::Decoded,
    Event::DecodeFailed,
    Event::Encoded,
    Event::EncodeFailed,
];

fn after(images: usize, events: &[Event]) -> Run {
    let mut run = Run::new(images, None);
    for event in events {
        run.on_event(*event);
    }
    run
}

#[test]
fn statuses_are_told_apart() {
    assert_eq!(STATUS_SUCCESS, 0);
    assert_eq!(STATUS_USAGE, 2);
    assert_eq!(STATUS_OPERATION, 127);
    assert_eq!(Failure::Palette.status(), STATUS_USAGE);
    assert_eq!(
        Failure::Cardinality { error: CardinalityError::NoInput }.status(),
        STATUS_USAGE
    );
    assert_eq!(
        Failure::Cardinality { error: CardinalityError::Mismatch { inputs: 2, outputs: 1 } }.status(),
        STATUS_USAGE
    );
    assert_eq!(Failure::Decode { image: 0 }.status(), STATUS_OPERATION);
    assert_eq!(Failure::Encode { image: 3 }.status(), STATUS_OPERATION);
}

#[test]
fn a_run_starts_idle() {
    let run = Run::new(3, None);
    assert_eq!(run.stage(), Stage::Idle);
    assert_eq!(run.images(), 3);
    assert_eq!(run.action(), Action::ResolvePalette);
    assert_eq!(Run::new(3, Some(3)).stage(), Stage::Idle);
}

#[test]
fn a_run_without_an_image_has_failed() {
    let run = Run::new(0, None);
    let failure = Failure::Cardinality { error: CardinalityError::NoInput };
    assert_eq!(run.stage(), Stage::Failed { failure });
    assert_eq!(run.action(), Action::Stop { status: STATUS_USAGE });
}

#[test]
fn a_run_with_too_few_output_names_has_failed() {
    let run = Run::new(3, Some(2));
    let failure = Failure::Cardinality { error: CardinalityError::Mismatch { inputs: 3, outputs: 2 } };
    assert_eq!(run.stage(), Stage::Failed { failure });
    assert_eq!(run.action(), Action::Stop { status: STATUS_USAGE });
}

#[test]
fn a_rejected_palette_ends_the_run() {
    let run = after(2, &[Event::PaletteRejected]);
    assert_eq!(run.stage(), Stage::Failed { failure: Failure::Palette });
    assert_eq!(run.action(), Action::Stop { status: STATUS_USAGE });
}

#[test]
fn images_are_taken_one_at_a_time_in_order() {
    let mut run = Run::new(3, None);
    assert_eq!(run.action(), Action::ResolvePalette);
    run.on_event(Event::PaletteResolved);
    for image in 0..3 {
        assert_eq!(run.stage(), Stage::PaletteReady { image });
        assert_eq!(run.action(), Action::Decode { image });
        run.on_event(Event::Decoded);
        assert_eq!(run.stage(), Stage::Converting { image });
        assert_eq!(run.action(), Action::Convert { image });
        run.on_event(Event::Encoded);
    }
    assert_eq!(run.stage(), Stage::Done);
    assert_eq!(run.action(), Action::Stop { status: STATUS_SUCCESS });
}

#[test]
fn a_single_image() {
    let run = after(1, &[Event::PaletteResolved, Event::Decoded, Event::Encoded]);
    assert_eq!(run.stage(), Stage::Done);
}

#[test]
fn an_image_that_does_not_decode_ends_the_run() {
    let run = after(3, &[Event::PaletteResolved, Event::Decoded, Event::Encoded, Event::DecodeFailed]);
    assert_eq!(run.stage(), Stage::Failed { failure: Failure::Decode { image: 1 } });
    assert_eq!(run.action(), Action::Stop { status: STATUS_OPERATION });
}

#[test]
fn an_image_that_does_not_encode_ends_the_run() {
    let run = after(3, &[Event::PaletteResolved, Event::Decoded, Event::EncodeFailed]);
    assert_eq!(run.stage(), Stage::Failed { failure: Failure::Encode { image: 0 } });
    assert_eq!(run.action(), Action::Stop { status: STATUS_OPERATION });
}

#[test]
fn the_end_is_final() {
    let ends = [
        after(1, &[Event::PaletteResolved, Event::Decoded, Event::Encoded]),
        after(2, &[Event::PaletteRejected]),
        after(2, &[Event::PaletteResolved, Event::DecodeFailed]),
        after(2, &[Event::PaletteResolved, Event::Decoded, Event::EncodeFailed]),
        Run::new(0, None),
        Run::new(1, Some(2)),
    ];
    for end in ends {
        for event in EVENTS {
            let mut run = end;
            run.on_event(event);
            assert_eq!(run, end);
        }
    }
}

#[test]
fn a_report_that_was_not_asked_for_changes_nothing() {
    let idle = Run::new(2, None);
    for event in [Event::Decoded, Event::DecodeFailed, Event::Encoded, Event::EncodeFailed] {
        let mut run = idle;
        run.on_event(event);
        assert_eq!(run, idle);
    }
    let ready = after(2, &[Event::PaletteResolved]);
    for event in [Event::PaletteResolved, Event::PaletteRejected, Event::Encoded, Event::EncodeFailed] {
        let mut run = ready;
        run.on_event(event);
        assert_eq!(run, ready);
    }
    let converting = after(2, &[Event::PaletteResolved, Event::Decoded]);
    for event in [Event::PaletteResolved, Event::PaletteRejected, Event::Decoded, Event::DecodeFailed] {
        let mut run = converting;
        run.on_event(event);
        assert_eq!(run, converting);
    }
}
