//! The order of a run. A run resolves the palette once, then takes the
//! images one at a time, in the order given: it decodes an image,
//! converts and encodes it, and only then turns to the next. The first
//! failure ends the run.
//!
//! The run itself does no work. It tells its driver what to do next and is
//! told how that went.

use vstd::prelude::*;
use crate::cli::{check_cardinality, CardinalityError};

verus! {

/// The status of a run that succeeded.
pub const STATUS_SUCCESS: u8 = 0;

/// The status of a run that was refused for what it was asked to do: the
/// palette document, the selection of styles, or the number of outputs.
pub const STATUS_USAGE: u8 = 2;

/// The status of a run that failed at its work: an image could not be
/// decoded, encoded or written.
pub const STATUS_OPERATION: u8 = 127;

/// Why a run ended without success.
#[derive(Clone, Copy, Debug, PartialEq, Eq, Structural)]
pub enum Failure {
    /// The images and output names do not fit together.
    Cardinality { error: CardinalityError },
    /// The palette could not be resolved.
    Palette,
    /// The image at this position could not be decoded.
    Decode { image: usize },
    /// The image at this position could not be encoded or written.
    Encode { image: usize },
}

/// Where a run stands.
#[derive(Clone, Copy, Debug, PartialEq, Eq, Structural)]
pub enum Stage {
    /// Nothing is done yet.
    Idle,
    /// The palette is resolved, and the image at this position is the next
    /// to be decoded.
    PaletteReady { image: usize },
    /// The image at this position is decoded and is being converted.
    Converting { image: usize },
    /// Every image is converted and written.
    Done,
    /// The run has failed.
    Failed { failure: Failure },
}

/// What the driver of a run is to do next.
#[derive(Clone, Copy, Debug, PartialEq, Eq, Structural)]
pub enum Action {
    /// Resolve the palette, remove its duplicates and build the array of
    /// L*a*b* colours.
    ResolvePalette,
    /// Decode the image at this position.
    Decode { image: usize },
    /// Convert the pixels of the image at this position and encode it.
    Convert { image: usize },
    /// End the process with this status.
    Stop { status: u8 },
}

/// What the driver of a run reports.
#[derive(Clone, Copy, Debug, PartialEq, Eq, Structural)]
pub enum Event {
    PaletteResolved,
    PaletteRejected,
    Decoded,
    DecodeFailed,
    Encoded,
    EncodeFailed,
}

/// A run over a number of images.
#[derive(Clone, Copy, Debug, PartialEq, Eq)]
pub struct Run {
    stage: Stage,
    images: usize,
}

impl Failure {
    /// The status with which the process ends after this failure.
    pub open spec fn status_of(self) -> u8 {
        match self {
            Failure::Cardinality { .. } => STATUS_USAGE,
            Failure::Palette => STATUS_USAGE,
            Failure::Decode { .. } => STATUS_OPERATION,
            Failure::Encode { .. } => STATUS_OPERATION,
        }
    }

    /// The status with which the process ends after this failure.
    pub fn status(&self) -> (status: u8)
        ensures
            status == self.status_of(),
            status != STATUS_SUCCESS,
    {
        match self {
            Failure::Cardinality { .. } => STATUS_USAGE,
            Failure::Palette => STATUS_USAGE,
            Failure::Decode { .. } => STATUS_OPERATION,
            Failure::Encode { .. } => STATUS_OPERATION,
        }
    }
}

impl Stage {
    /// Whether the run is over.
    pub open spec fn is_final(self) -> bool {
        self is Done || self is Failed
    }

    /// The position of the image that the run is at; the number of images
    /// once every image is done.
    pub open spec fn position(self, images: usize) -> int {
        match self {
            Stage::Idle => 0,
            Stage::PaletteReady { image } => image as int,
            Stage::Converting { image } => image as int,
            Stage::Done => images as int,
            Stage::Failed { .. } => 0,
        }
    }

    /// The action that the stage asks for.
    pub open spec fn action_of(self) -> Action {
        match self {
            Stage::Idle => Action::ResolvePalette,
            Stage::PaletteReady { image } => Action::Decode { image },
            Stage::Converting { image } => Action::Convert { image },
            Stage::Done => Action::Stop { status: STATUS_SUCCESS },
            Stage::Failed { failure } => Action::Stop { status: failure.status_of() },
        }
    }

    /// The stage that follows when the driver reports `event`. A report
    /// that does not answer what the stage asked for changes nothing.
    pub open spec fn after(self, event: Event, images: usize) -> Stage {
        match (self, event) {
            (Stage::Idle, Event::PaletteResolved) => Stage::PaletteReady { image: 0 },
            (Stage::Idle, Event::PaletteRejected) => Stage::Failed { failure: Failure::Palette },
            (Stage::PaletteReady { image }, Event::Decoded) => Stage::Converting { image },
            (Stage::PaletteReady { image }, Event::DecodeFailed) => Stage::Failed {
                failure: Failure::Decode { image },
            },
            (Stage::Converting { image }, Event::Encoded) => if image + 1 < images {
                Stage::PaletteReady { image: (image + 1) as usize }
            } else {
                Stage::Done
            },
            (Stage::Converting { image }, Event::EncodeFailed) => Stage::Failed {
                failure: Failure::Encode { image },
            },
            _ => self,
        }
    }
}

/// Whether a stage fits a number of images: a run that can go on has an
/// image to take, and the image that it is at is one of its images.
pub open spec fn stage_fits(stage: Stage, images: usize) -> bool {
    match stage {
        Stage::Idle => 0 < images,
        Stage::PaletteReady { image } => image < images,
        Stage::Converting { image } => image < images,
        _ => true,
    }
}

impl Run {
    #[verifier::type_invariant]
    spec fn wf(self) -> bool {
        stage_fits(self.stage, self.images)
    }

    /// Where the run stands.
    pub closed spec fn stage_of(self) -> Stage {
        self.stage
    }

    /// The number of images of the run.
    pub closed spec fn images_of(self) -> usize {
        self.images
    }

    /// A run over `inputs` images for which `outputs` names were given, if
    /// any were. A run without an image, or with another number of names
    /// than images, has failed before it starts.
    pub fn new(inputs: usize, outputs: Option<usize>) -> (run: Run)
        ensures
            run.images_of() == inputs,
            run.stage_of() == if inputs == 0 {
                Stage::Failed { failure: Failure::Cardinality { error: CardinalityError::NoInput } }
            } else if outputs matches Some(n) && n != inputs {
                Stage::Failed {
                    failure: Failure::Cardinality {
                        error: CardinalityError::Mismatch { inputs, outputs: outputs->0 },
                    },
                }
            } else {
                Stage::Idle
            },
    {
        match check_cardinality(inputs, outputs) {
            Ok(()) => Run { stage: Stage::Idle, images: inputs },
            Err(error) => Run {
                stage: Stage::Failed { failure: Failure::Cardinality { error } },
                images: inputs,
            },
        }
    }

    /// Where the run stands.
    pub fn stage(&self) -> (stage: Stage)
        ensures
            stage == self.stage_of(),
            stage_fits(stage, self.images_of()),
    {
        proof {
            use_type_invariant(self);
        }
        self.stage
    }

    /// The number of images of the run.
    pub fn images(&self) -> (images: usize)
        ensures
            images == self.images_of(),
    {
        self.images
    }

    /// What the driver is to do next.
    pub fn action(&self) -> (action: Action)
        ensures
            action == self.stage_of().action_of(),
    {
        match self.stage {
            Stage::Idle => Action::ResolvePalette,
            Stage::PaletteReady { image } => Action::Decode { image },
            Stage::Converting { image } => Action::Convert { image },
            Stage::Done => Action::Stop { status: STATUS_SUCCESS },
            Stage::Failed { failure } => Action::Stop { status: failure.status() },
        }
    }

    /// Takes the report of the driver and moves on.
    pub fn on_event(&mut self, event: Event)
        ensures
            final(self).images_of() == old(self).images_of(),
            final(self).stage_of() == old(self).stage_of().after(event, old(self).images_of()),
    {
        proof {
            use_type_invariant(&*self);
        }
        let next = match (self.stage, event) {
            (Stage::Idle, Event::PaletteResolved) => Stage::PaletteReady { image: 0 },
            (Stage::Idle, Event::PaletteRejected) => Stage::Failed { failure: Failure::Palette },
            (Stage::PaletteReady { image }, Event::Decoded) => Stage::Converting { image },
            (Stage::PaletteReady { image }, Event::DecodeFailed) => Stage::Failed {
                failure: Failure::Decode { image },
            },
            (Stage::Converting { image }, Event::Encoded) => if image + 1 < self.images {
                Stage::PaletteReady { image: image + 1 }
            } else {
                Stage::Done
            },
            (Stage::Converting { image }, Event::EncodeFailed) => Stage::Failed {
                failure: Failure::Encode { image },
            },
            (stage, _) => stage,
        };
        self.stage = next;
    }
}

/// The stage that a run over `images` images is at after the driver has
/// reported `events`, in this order, starting from `stage`.
pub open spec fn stage_after(stage: Stage, events: Seq<Event>, images: usize) -> Stage
    decreases events.len(),
{
    if events.len() == 0 {
        stage
    } else {
        stage_after(stage, events.drop_last(), images).after(events.last(), images)
    }
}

/// The reports of a run in which the palette is resolved and the first `n`
/// images are decoded and encoded, one after the other.
pub open spec fn smooth_events(n: nat) -> Seq<Event>
    decreases n,
{
    if n == 0 {
        seq![Event::PaletteResolved]
    } else {
        smooth_events((n - 1) as nat).push(Event::Decoded).push(Event::Encoded)
    }
}

/// A run that is over stays as it is: nothing that is reported after the
/// end, or after the first failure, changes the outcome.
pub proof fn lemma_the_end_is_final(stage: Stage, events: Seq<Event>, images: usize)
    requires
        stage.is_final(),
    ensures
        stage_after(stage, events, images) == stage,
    decreases events.len(),
{
    if events.len() > 0 {
        lemma_the_end_is_final(stage, events.drop_last(), images);
    }
}

/// A run never goes back: whatever is reported, the position of the image
/// that the run is at stays or moves on by one, and it moves on only when
/// the image it was at is reported as encoded.
pub proof fn lemma_images_in_order(stage: Stage, event: Event, images: usize)
    requires
        stage_fits(stage, images),
        !(stage.after(event, images) is Failed),
    ensures
        ({
            let next = stage.after(event, images);
            let moved = next.position(images) - stage.position(images);
            &&& stage_fits(next, images)
            &&& moved == 0 || moved == 1
            &&& moved == 1 ==> stage is Converting && event is Encoded
        }),
{
}

/// No image is touched before the palette is resolved: a run asks for an
/// image to be decoded or converted only after the palette was reported
/// as resolved.
pub proof fn lemma_palette_comes_first(events: Seq<Event>, images: usize)
    requires
        stage_after(Stage::Idle, events, images).action_of() is Decode || stage_after(
            Stage::Idle,
            events,
            images,
        ).action_of() is Convert,
    ensures
        events.contains(Event::PaletteResolved),
    decreases events.len(),
{
    if events.len() > 0 {
        let front = events.drop_last();
        let before = stage_after(Stage::Idle, front, images);
        assert(events[events.len() - 1] == events.last());
        if events.last() == Event::PaletteResolved {
        } else {
            assert(!(before is Idle));
            assert(!(before is Done) && !(before is Failed));
            lemma_palette_comes_first(front, images);
            let i = choose|i: int| 0 <= i < front.len() && front[i] == Event::PaletteResolved;
            assert(events[i] == Event::PaletteResolved);
        }
    }
}

/// A run in which everything goes well ends in success after the last
/// image, and not before.
pub proof fn lemma_smooth_run(images: usize, n: nat)
    requires
        0 < images,
        n <= images,
    ensures
        stage_after(Stage::Idle, smooth_events(n), images) == if n < images {
            Stage::PaletteReady { image: n as usize }
        } else {
            Stage::Done
        },
    decreases n,
{
    if n == 0 {
        let events = smooth_events(0);
        assert(events.drop_last() =~= Seq::<Event>::empty());
        assert(stage_after(Stage::Idle, events.drop_last(), images) == Stage::Idle);
    } else {
        lemma_smooth_run(images, (n - 1) as nat);
        let before = smooth_events((n - 1) as nat);
        let decoded = before.push(Event::Decoded);
        let encoded = decoded.push(Event::Encoded);
        assert(decoded.drop_last() =~= before);
        assert(encoded.drop_last() =~= decoded);
        assert(stage_after(Stage::Idle, decoded, images) == Stage::Converting {
            image: (n - 1) as usize,
        });
    }
}

} // verus!
