//! One output device: whether it can be served, and what its stream does next.

use vstd::prelude::*;

use super::mixer::MixerEvent;
use super::SAMPLE_RATE;
use crate::util::find_four;

verus! {

/// What an audio call failed of.
#[derive(Debug, Clone, Copy, PartialEq, Eq, Structural)]
pub enum ErrorKind {
    DeviceBusy,
    DeviceNotAvailable,
    HostUnavailable,
    PermissionDenied,
    ResourceExhausted,
    StreamInvalidated,
    BackendError,
    UnsupportedConfig,
    /// A failure that the host could not put under any other kind.
    Other,
    /// Any kind that is none of the above.
    Unlisted,
}

/// A failed audio call, with what the host said of it.
#[derive(Debug)]
pub struct AudioError {
    pub kind: ErrorKind,
    pub message: String,
}

/// Why a stream ended.
#[derive(Debug)]
pub enum StreamHandlerError {
    DeviceDisconnected { source: AudioError },
    FormatUnsupported { source: AudioError },
    OtherDeviceError { source: AudioError },
}

/// Why a device is not served.
#[derive(Debug)]
pub enum DeviceHandlerError {
    DeviceUnavailable,
    DeviceUnsupported,
    Stream { source: StreamHandlerError },
}

/// How many frames are asked for at a time.
pub const BUFFER_FRAMES: u32 = 256;

/// How long the host is given to open a device, in milliseconds.
pub const DEVICE_WAIT_MS: u64 = 1000;

/// How long to wait before a busy device is tried again, in milliseconds.
pub const BUSY_RETRY_MS: u64 = 500;

/// How long to wait for an event before looking whether the stream was cancelled, in
/// milliseconds.
pub const EVENT_WAIT_MS: u64 = 100;

/// How a sample is written.
#[derive(Debug, Clone, Copy, PartialEq, Eq, Structural)]
pub enum SampleFormat {
    F32,
    I16,
    Unlisted,
}

/// A range of configurations that a device supports.
#[derive(Debug, Clone, Copy, PartialEq, Eq, Structural)]
pub struct ConfigRange {
    pub format: SampleFormat,
    pub channels: u16,
    pub min_rate: u32,
    pub max_rate: u32,
}

impl ConfigRange {
    /// The range holds the rate, with the format and the number of channels.
    pub open spec fn has(self, format: SampleFormat, channels: u16, rate: u32) -> bool {
        self.format == format && self.min_rate <= rate <= self.max_rate && self.channels == channels
    }

    pub fn suits(&self, format: SampleFormat, channels: u16, rate: u32) -> (r: bool)
        ensures
            r == self.has(format, channels, rate),
    {
        self.format == format && self.min_rate <= rate && rate <= self.max_rate && self.channels
            == channels
    }
}

/// One of the ranges holds the rate, with the format and the number of channels.
pub open spec fn supports(
    configs: Seq<ConfigRange>,
    format: SampleFormat,
    channels: u16,
    rate: u32,
) -> bool {
    exists|i: int| 0 <= i < configs.len() && (#[trigger] configs[i]).has(format, channels, rate)
}

/// What is taken of the supported configurations: whether samples are floating-point numbers,
/// and whether there are two channels. Two channels come first, and floating-point numbers
/// second.
pub open spec fn chosen_config(configs: Seq<ConfigRange>, rate: u32) -> Option<(bool, bool)> {
    if supports(configs, SampleFormat::F32, 2, rate) {
        Some((true, true))
    } else if supports(configs, SampleFormat::I16, 2, rate) {
        Some((false, true))
    } else if supports(configs, SampleFormat::F32, 1, rate) {
        Some((true, false))
    } else if supports(configs, SampleFormat::I16, 1, rate) {
        Some((false, false))
    } else {
        None
    }
}

/// What is taken of the supported configurations, if any can be.
pub fn get_supported_config(configs: Vec<ConfigRange>, sample_rate: u32) -> (r: Option<
    (bool, bool),
>)
    ensures
        r == chosen_config(configs@, sample_rate),
{
    let f32_2ch = |x: &ConfigRange| -> (b: bool)
        ensures
            b == x.has(SampleFormat::F32, 2, sample_rate),
        { x.suits(SampleFormat::F32, 2, sample_rate) };
    let i16_2ch = |x: &ConfigRange| -> (b: bool)
        ensures
            b == x.has(SampleFormat::I16, 2, sample_rate),
        { x.suits(SampleFormat::I16, 2, sample_rate) };
    let f32_1ch = |x: &ConfigRange| -> (b: bool)
        ensures
            b == x.has(SampleFormat::F32, 1, sample_rate),
        { x.suits(SampleFormat::F32, 1, sample_rate) };
    let i16_1ch = |x: &ConfigRange| -> (b: bool)
        ensures
            b == x.has(SampleFormat::I16, 1, sample_rate),
        { x.suits(SampleFormat::I16, 1, sample_rate) };
    let ghost all = configs@;
    assert(crate::util::asks_all::<ConfigRange, _>(f32_2ch));
    assert(crate::util::asks_all::<ConfigRange, _>(i16_2ch));
    assert(crate::util::asks_all::<ConfigRange, _>(f32_1ch));
    assert(crate::util::asks_all::<ConfigRange, _>(i16_1ch));
    let (support_f32_2ch, support_i16_2ch, support_f32_1ch, support_i16_1ch) = find_four(
        configs.into_iter(),
        (f32_2ch, i16_2ch, f32_1ch, i16_1ch),
    );
    assert(support_f32_2ch == supports(all, SampleFormat::F32, 2, sample_rate));
    assert(support_i16_2ch == supports(all, SampleFormat::I16, 2, sample_rate));
    assert(support_f32_1ch == supports(all, SampleFormat::F32, 1, sample_rate));
    assert(support_i16_1ch == supports(all, SampleFormat::I16, 1, sample_rate));
    if support_f32_2ch {
        Some((true, true))
    } else if support_i16_2ch {
        Some((false, true))
    } else if support_f32_1ch {
        Some((true, false))
    } else if support_i16_1ch {
        Some((false, false))
    } else {
        None
    }
}

/// What is chosen is what the device has: one of the ranges is of exactly that format and number
/// of channels, begins at the rate or below it and ends at it or above.
pub proof fn law_chosen_config_is_supported(
    configs: Seq<ConfigRange>,
    rate: u32,
    use_f32: bool,
    two_channels: bool,
)
    requires
        chosen_config(configs, rate) == Some((use_f32, two_channels)),
    ensures
        exists|i: int|
            {
                &&& 0 <= i < configs.len()
                &&& (#[trigger] configs[i]).min_rate <= rate
                &&& rate <= configs[i].max_rate
                &&& use_f32 ==> configs[i].format is F32
                &&& !use_f32 ==> configs[i].format is I16
                &&& configs[i].channels == (if two_channels {
                    2int
                } else {
                    1int
                })
            },
{
    let format = if use_f32 {
        SampleFormat::F32
    } else {
        SampleFormat::I16
    };
    let channels: u16 = if two_channels {
        2
    } else {
        1
    };
    assert(supports(configs, format, channels, rate));
    let i = choose|i: int|
        0 <= i < configs.len() && (#[trigger] configs[i]).has(format, channels, rate);
    assert(configs[i].min_rate <= rate);
}

/// A range that can be used is used, or a better one is: whichever of the ranges holds the rate
/// in one of the two formats and with one or two channels, something is chosen, two channels if
/// the range has them, and floating-point numbers if it has them besides as many channels as are
/// chosen.
pub proof fn law_usable_config_is_not_passed_over(
    configs: Seq<ConfigRange>,
    rate: u32,
    i: int,
)
    requires
        0 <= i < configs.len(),
        configs[i].format is F32 || configs[i].format is I16,
        configs[i].min_rate <= rate,
        rate <= configs[i].max_rate,
        configs[i].channels == 1 || configs[i].channels == 2,
    ensures
        chosen_config(configs, rate) matches Some((use_f32, two_channels)) && {
            &&& configs[i].channels == 2 ==> two_channels
            &&& configs[i].format is F32 && (configs[i].channels == 2 || !two_channels) ==> use_f32
        },
{
    assert(configs[i].has(configs[i].format, configs[i].channels, rate));
    assert(supports(configs, configs[i].format, configs[i].channels, rate));
}

/// A device whose ranges all begin above the rate, or end below it, cannot be used.
pub proof fn law_rate_out_of_range_is_refused(configs: Seq<ConfigRange>, rate: u32)
    requires
        forall|i: int|
            0 <= i < configs.len() ==> rate < (#[trigger] configs[i]).min_rate || rate
                > configs[i].max_rate,
    ensures
        chosen_config(configs, rate) is None,
{
    if chosen_config(configs, rate) is Some {
        let chosen = chosen_config(configs, rate)->0;
        law_chosen_config_is_supported(configs, rate, chosen.0, chosen.1);
    }
}

/// How a stream is opened.
#[derive(Debug, Clone, Copy, PartialEq, Eq, Structural)]
pub struct StreamSetup {
    pub channels: u16,
    pub sample_rate: u32,
    pub buffer_frames: u32,
    pub support_f32: bool,
    pub support_2ch: bool,
}

/// Whether and how a device can be served: `found` tells whether it is there, and `configs` is
/// what it supports, if it tells.
pub fn device_handler(found: bool, supports_output: bool, configs: Option<Vec<ConfigRange>>) -> (r:
    Result<StreamSetup, DeviceHandlerError>)
    ensures
        match r {
            Ok(setup) => {
                &&& found && supports_output
                &&& configs matches Some(c) && chosen_config(c@, SAMPLE_RATE) == Some(
                    (setup.support_f32, setup.support_2ch),
                )
                &&& setup.channels == (if setup.support_2ch {
                    2u16
                } else {
                    1u16
                })
                &&& setup.sample_rate == SAMPLE_RATE
                &&& setup.buffer_frames == BUFFER_FRAMES
                &&& configs matches Some(c) && exists|i: int|
                    {
                        &&& 0 <= i < c@.len()
                        &&& (#[trigger] c@[i]).min_rate <= 48000
                        &&& 48000 <= c@[i].max_rate
                        &&& c@[i].channels == setup.channels
                        &&& setup.support_f32 ==> c@[i].format is F32
                        &&& !setup.support_f32 ==> c@[i].format is I16
                    }
            },
            Err(DeviceHandlerError::DeviceUnavailable) => !found,
            Err(DeviceHandlerError::DeviceUnsupported) => found && (!supports_output
                || match configs {
                Some(c) => chosen_config(c@, SAMPLE_RATE) is None,
                None => true,
            }),
            Err(DeviceHandlerError::Stream { source: _ }) => false,
        },
{
    if !found {
        return Err(DeviceHandlerError::DeviceUnavailable);
    }
    if !supports_output {
        return Err(DeviceHandlerError::DeviceUnsupported);
    }
    match configs {
        Some(soc) => match get_supported_config(soc, SAMPLE_RATE) {
            Some((support_f32, support_2ch)) => {
                proof {
                    law_chosen_config_is_supported(soc@, SAMPLE_RATE, support_f32, support_2ch);
                }
                Ok(
                    StreamSetup {
                        channels: if support_2ch {
                            2
                        } else {
                            1
                        },
                        sample_rate: SAMPLE_RATE,
                        buffer_frames: BUFFER_FRAMES,
                        support_f32,
                        support_2ch,
                    },
                )
            },
            None => Err(DeviceHandlerError::DeviceUnsupported),
        },
        None => Err(DeviceHandlerError::DeviceUnsupported),
    }
}

/// What the handler of a stream does next.
#[derive(Debug)]
pub enum StreamStep {
    /// Let the mixer render again and build the stream.
    Build,
    /// Wait for [`BUSY_RETRY_MS`], and begin again with looking whether to go on.
    RetryLater,
    /// Start the stream.
    Start,
    /// Report that the device is up, and wait for events.
    Report,
    /// Wait for an event.
    Wait,
    /// Let the stream play on, and wait for events.
    Play,
    /// Pause the stream, and wait for events.
    Pause,
    /// The handler is done.
    Exit(Result<(), StreamHandlerError>),
}

/// What comes before a stream is built.
pub open spec fn before_build_of(cancelled: bool) -> StreamStep {
    if cancelled {
        StreamStep::Exit(Ok(()))
    } else {
        StreamStep::Build
    }
}

/// What to do before a stream is built: nothing more if it was cancelled.
pub fn before_build(cancelled: bool) -> (r: StreamStep)
    ensures
        r == before_build_of(cancelled),
{
    if cancelled {
        StreamStep::Exit(Ok(()))
    } else {
        StreamStep::Build
    }
}

/// What comes after a stream was built, or not.
pub open spec fn after_build_of(built: Result<(), AudioError>) -> StreamStep {
    match built {
        Ok(_) => StreamStep::Start,
        Err(e) => match e.kind {
            ErrorKind::DeviceBusy => StreamStep::RetryLater,
            ErrorKind::DeviceNotAvailable | ErrorKind::PermissionDenied => StreamStep::Exit(
                Err(StreamHandlerError::DeviceDisconnected { source: e }),
            ),
            ErrorKind::UnsupportedConfig => StreamStep::Exit(
                Err(StreamHandlerError::FormatUnsupported { source: e }),
            ),
            _ => StreamStep::Exit(Err(StreamHandlerError::OtherDeviceError { source: e })),
        },
    }
}

/// What to do after a stream was built, or not.
pub fn after_build(built: Result<(), AudioError>) -> (r: StreamStep)
    ensures
        r == after_build_of(built),
{
    match built {
        Ok(_) => StreamStep::Start,
        Err(e) => match e.kind {
            ErrorKind::DeviceBusy => StreamStep::RetryLater,
            ErrorKind::DeviceNotAvailable | ErrorKind::PermissionDenied => StreamStep::Exit(
                Err(StreamHandlerError::DeviceDisconnected { source: e }),
            ),
            ErrorKind::UnsupportedConfig => StreamStep::Exit(
                Err(StreamHandlerError::FormatUnsupported { source: e }),
            ),
            _ => StreamStep::Exit(Err(StreamHandlerError::OtherDeviceError { source: e })),
        },
    }
}

/// What comes after a stream was started, or not.
pub open spec fn after_start_of(started: Result<(), AudioError>) -> StreamStep {
    match started {
        Ok(_) => StreamStep::Report,
        Err(e) => StreamStep::Exit(Err(StreamHandlerError::OtherDeviceError { source: e })),
    }
}

/// What to do after a stream was started, or not.
pub fn after_start(started: Result<(), AudioError>) -> (r: StreamStep)
    ensures
        r == after_start_of(started),
{
    match started {
        Ok(_) => StreamStep::Report,
        Err(e) => StreamStep::Exit(Err(StreamHandlerError::OtherDeviceError { source: e })),
    }
}

/// What comes after a stream was told to play or to pause.
pub open spec fn after_control_of(done: Result<(), AudioError>) -> StreamStep {
    match done {
        Ok(_) => StreamStep::Wait,
        Err(e) => StreamStep::Exit(Err(StreamHandlerError::OtherDeviceError { source: e })),
    }
}

/// What to do after a stream was told to play or to pause.
pub fn after_control(done: Result<(), AudioError>) -> (r: StreamStep)
    ensures
        r == after_control_of(done),
{
    match done {
        Ok(_) => StreamStep::Wait,
        Err(e) => StreamStep::Exit(Err(StreamHandlerError::OtherDeviceError { source: e })),
    }
}

/// What came while the handler of a stream waited.
#[derive(Debug)]
pub enum StreamEvent {
    /// The host reported an error for which the device is to be opened anew.
    Failure(AudioError),
    /// The mixer asks for something.
    Mixer(MixerEvent),
    /// Something that nothing could be read from.
    Unreadable,
    /// Nothing, for [`EVENT_WAIT_MS`].
    Timeout { cancelled: bool },
    /// Nothing, and nothing can come any more.
    Disconnected,
}

/// What an event asks for.
#[derive(Debug)]
pub enum StreamAction {
    /// To end.
    Exit,
    /// To open the device anew.
    Restart { source: AudioError },
    /// To play on.
    Play,
    /// To pause.
    Pause,
    /// Nothing.
    Ignore,
}

/// The action that an event asks for.
pub open spec fn action_of(event: StreamEvent) -> StreamAction {
    match event {
        StreamEvent::Failure(e) => StreamAction::Restart { source: e },
        StreamEvent::Mixer(MixerEvent::RequestStandby) => StreamAction::Pause,
        StreamEvent::Mixer(MixerEvent::RequestResume) => StreamAction::Play,
        StreamEvent::Unreadable => StreamAction::Ignore,
        StreamEvent::Timeout { cancelled } => if cancelled {
            StreamAction::Exit
        } else {
            StreamAction::Ignore
        },
        StreamEvent::Disconnected => StreamAction::Exit,
    }
}

/// What an event asks for.
pub fn stream_handle_event(event: StreamEvent) -> (r: StreamAction)
    ensures
        r == action_of(event),
{
    match event {
        StreamEvent::Failure(e) => StreamAction::Restart { source: e },
        StreamEvent::Mixer(MixerEvent::RequestStandby) => StreamAction::Pause,
        StreamEvent::Mixer(MixerEvent::RequestResume) => StreamAction::Play,
        StreamEvent::Unreadable => StreamAction::Ignore,
        StreamEvent::Timeout { cancelled } => {
            if cancelled {
                StreamAction::Exit
            } else {
                StreamAction::Ignore
            }
        },
        StreamEvent::Disconnected => StreamAction::Exit,
    }
}

/// What comes of what an event asks for.
pub open spec fn after_event_of(action: StreamAction) -> StreamStep {
    match action {
        StreamAction::Exit => StreamStep::Exit(Ok(())),
        StreamAction::Restart { source } => StreamStep::Exit(
            Err(StreamHandlerError::DeviceDisconnected { source }),
        ),
        StreamAction::Play => StreamStep::Play,
        StreamAction::Pause => StreamStep::Pause,
        StreamAction::Ignore => StreamStep::Wait,
    }
}

/// What to do about what an event asks for.
pub fn after_event(action: StreamAction) -> (r: StreamStep)
    ensures
        r == after_event_of(action),
{
    match action {
        StreamAction::Exit => StreamStep::Exit(Ok(())),
        StreamAction::Restart { source } => StreamStep::Exit(
            Err(StreamHandlerError::DeviceDisconnected { source }),
        ),
        StreamAction::Play => StreamStep::Play,
        StreamAction::Pause => StreamStep::Pause,
        StreamAction::Ignore => StreamStep::Wait,
    }
}

/// Whether the device is to be opened anew after an error that the host reported while its
/// stream played. If so, the mixer is told that the stream is gone, and the error is passed on
/// to the handler of the stream.
pub fn stream_error_callback(kind: ErrorKind) -> (restart: bool)
    ensures
        restart == (kind != ErrorKind::UnsupportedConfig && kind != ErrorKind::Unlisted),
{
    match kind {
        ErrorKind::DeviceBusy
        | ErrorKind::DeviceNotAvailable
        | ErrorKind::HostUnavailable
        | ErrorKind::PermissionDenied
        | ErrorKind::ResourceExhausted
        | ErrorKind::StreamInvalidated
        | ErrorKind::BackendError
        | ErrorKind::Other => true,
        _ => false,
    }
}

/// What the handler of a stream learns by doing a step.
#[derive(Debug)]
pub enum StreamInput {
    /// Whether it was cancelled, before the stream is built.
    Looked { cancelled: bool },
    /// Whether what it tried was done.
    Tried(Result<(), AudioError>),
    /// What came while it waited.
    Came(StreamEvent),
}

/// After one step of the handler of a stream, and what it learned by it, comes the next.
pub open spec fn follows(step: StreamStep, input: StreamInput, next: StreamStep) -> bool {
    match step {
        StreamStep::RetryLater => input matches StreamInput::Looked { cancelled } && next
            == before_build_of(cancelled),
        StreamStep::Build => input matches StreamInput::Tried(r) && next == after_build_of(r),
        StreamStep::Start => input matches StreamInput::Tried(r) && next == after_start_of(r),
        StreamStep::Play | StreamStep::Pause => input matches StreamInput::Tried(r) && next
            == after_control_of(r),
        StreamStep::Report | StreamStep::Wait => input matches StreamInput::Came(e) && next
            == after_event_of(action_of(e)),
        StreamStep::Exit(_) => false,
    }
}

/// The input is what the handler of a stream learns by doing the step.
pub open spec fn fits(step: StreamStep, input: StreamInput) -> bool {
    match step {
        StreamStep::RetryLater => input is Looked,
        StreamStep::Build | StreamStep::Start | StreamStep::Play | StreamStep::Pause => {
            input is Tried
        },
        StreamStep::Report | StreamStep::Wait => input is Came,
        StreamStep::Exit(_) => false,
    }
}

/// The step that follows a step of the handler of a stream and what was learned by it. Nothing
/// follows the last step, or something that is not learned by the step.
pub fn stream_next(step: StreamStep, input: StreamInput) -> (r: Option<StreamStep>)
    ensures
        match r {
            Some(next) => fits(step, input) && follows(step, input, next),
            None => !fits(step, input),
        },
{
    match (step, input) {
        (StreamStep::RetryLater, StreamInput::Looked { cancelled }) => Some(
            before_build(cancelled),
        ),
        (StreamStep::Build, StreamInput::Tried(built)) => Some(after_build(built)),
        (StreamStep::Start, StreamInput::Tried(started)) => Some(after_start(started)),
        (StreamStep::Play, StreamInput::Tried(done)) => Some(after_control(done)),
        (StreamStep::Pause, StreamInput::Tried(done)) => Some(after_control(done)),
        (StreamStep::Report, StreamInput::Came(event)) => Some(
            after_event(stream_handle_event(event)),
        ),
        (StreamStep::Wait, StreamInput::Came(event)) => Some(
            after_event(stream_handle_event(event)),
        ),
        _ => None,
    }
}

/// The `i`th step of the handler of a stream leads to the next.
pub open spec fn flows_at(steps: Seq<StreamStep>, inputs: Seq<StreamInput>, i: int) -> bool {
    follows(steps[i], inputs[i], steps[i + 1])
}

/// The steps of the handler of a stream, from the look before the stream is first built on.
pub open spec fn flows(steps: Seq<StreamStep>, inputs: Seq<StreamInput>) -> bool {
    &&& steps.len() == inputs.len() + 1
    &&& steps[0] is RetryLater
    &&& forall|i: int| 0 <= i < inputs.len() ==> #[trigger] flows_at(steps, inputs, i)
}

/// The handler of a stream ends without an error only if it was cancelled, or nothing could
/// come any more.
pub proof fn law_ends_quietly_only_if_cancelled(steps: Seq<StreamStep>, inputs: Seq<StreamInput>)
    requires
        flows(steps, inputs),
        steps.last() == StreamStep::Exit(Ok(())),
    ensures
        inputs.len() > 0,
        match inputs.last() {
            StreamInput::Looked { cancelled } => cancelled,
            StreamInput::Came(StreamEvent::Timeout { cancelled }) => cancelled,
            StreamInput::Came(StreamEvent::Disconnected) => true,
            _ => false,
        },
{
    assert(flows_at(steps, inputs, inputs.len() - 1));
}

/// The handler of a stream ends with an error only because something that it tried failed, or the
/// host reported a failure, and passes on what the host said.
pub proof fn law_error_comes_from_the_host(
    steps: Seq<StreamStep>,
    inputs: Seq<StreamInput>,
    e: StreamHandlerError,
)
    requires
        flows(steps, inputs),
        steps.last() == StreamStep::Exit(Err(e)),
    ensures
        inputs.len() > 0,
        ({
            let source = match e {
                StreamHandlerError::DeviceDisconnected { source } => source,
                StreamHandlerError::FormatUnsupported { source } => source,
                StreamHandlerError::OtherDeviceError { source } => source,
            };
            match inputs.last() {
                StreamInput::Tried(Err(said)) => said == source,
                StreamInput::Came(StreamEvent::Failure(said)) => said == source && (
                e is DeviceDisconnected),
                _ => false,
            }
        }),
{
    assert(flows_at(steps, inputs, inputs.len() - 1));
}

/// A device that is busy is tried again until it is not, or the handler of its stream is
/// cancelled: after a stream could not be built for that, the handler looks whether it was, and
/// builds again.
pub proof fn law_busy_device_is_tried_again(
    busy: AudioError,
    retry: StreamStep,
    cancelled: bool,
    next: StreamStep,
)
    requires
        busy.kind is DeviceBusy,
        follows(StreamStep::Build, StreamInput::Tried(Err(busy)), retry),
        follows(retry, StreamInput::Looked { cancelled }, next),
    ensures
        !cancelled ==> next is Build,
        cancelled ==> next == StreamStep::Exit(Ok(())),
{
}

/// A request of the mixer is carried out: the stream is paused, or plays on, and if that worked
/// the handler waits for the next event.
pub proof fn law_request_is_carried_out(
    waiting: StreamStep,
    request: MixerEvent,
    step: StreamStep,
    next: StreamStep,
)
    requires
        waiting is Wait || waiting is Report,
        follows(waiting, StreamInput::Came(StreamEvent::Mixer(request)), step),
        follows(step, StreamInput::Tried(Ok(())), next),
    ensures
        request is RequestStandby ==> step is Pause,
        request is RequestResume ==> step is Play,
        next is Wait,
{
}

/// While nothing comes and nobody cancels it, the handler of a stream waits on; cancelled, it
/// ends.
pub proof fn law_waits_until_cancelled(waiting: StreamStep, cancelled: bool, next: StreamStep)
    requires
        waiting is Wait || waiting is Report,
        follows(waiting, StreamInput::Came(StreamEvent::Timeout { cancelled }), next),
    ensures
        !cancelled ==> next is Wait,
        cancelled ==> next == StreamStep::Exit(Ok(())),
{
}

/// The handler of a stream reports that its device is up exactly after the stream was built and
/// started, and from then on never builds it again: a stream that is lost ends the handler.
pub proof fn law_up_once_built_and_started(
    steps: Seq<StreamStep>,
    inputs: Seq<StreamInput>,
    i: int,
    j: int,
)
    requires
        flows(steps, inputs),
        0 <= i < j < steps.len(),
        steps[i] is Report,
    ensures
        i >= 2,
        steps[i - 1] is Start,
        steps[i - 2] is Build,
        inputs[i - 2] matches StreamInput::Tried(r) && r is Ok,
        inputs[i - 1] matches StreamInput::Tried(r) && r is Ok,
        steps[j] is Wait || steps[j] is Play || steps[j] is Pause || steps[j] is Exit,
    decreases j,
{
    assert(flows_at(steps, inputs, i - 1));
    assert(flows_at(steps, inputs, i - 2));
    assert(flows_at(steps, inputs, j - 1));
    if j - 1 > i {
        law_up_once_built_and_started(steps, inputs, i, j - 1);
    }
}

} // verus!
