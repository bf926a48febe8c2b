//! The course of a call that an Asterisk server places: its media channel is set
//! up first, then the call is dialled and bridged with it. What was created is
//! removed when a step fails.

use crate::ari_control::{
    attempt, bridge_path, channel_path, media_socket, rest_request, supported_mode, ActiveCall,
    AriController, AriError, AriFault, MediaSetup, Method, RestModel, RestRequest,
    CONNECTION_ID_VARIABLE,
};
use crate::ari_external_media::{request_query, ExternalMediaRequest, RequestModel};
use crate::ids::{unique_id, unique_id_text};
use crate::numeral::decimal;
use crate::text::replaced;
use vstd::prelude::*;

verus! {

broadcast use vstd::string::group_string_axioms;

// --- Removing what was created ---

/// Something to remove from the server. Failing to is no error.
#[derive(Debug, Clone)]
pub enum Cleanup {
    /// Hang up this channel.
    HangUp(String),
    /// Destroy this bridge.
    Destroy(String),
}

/// Something to remove from the server, with texts as sequences.
pub enum Removal {
    HangUp(Seq<char>),
    Destroy(Seq<char>),
}

impl View for Cleanup {
    type V = Removal;

    open spec fn view(&self) -> Removal {
        match self {
            Cleanup::HangUp(channel) => Removal::HangUp(channel@),
            Cleanup::Destroy(bridge) => Removal::Destroy(bridge@),
        }
    }
}

/// What to remove, in order.
pub open spec fn removals(steps: Seq<Cleanup>) -> Seq<Removal> {
    steps.map_values(|step: Cleanup| step@)
}

/// The removal of a media channel and its bridge.
pub open spec fn media_removals(media: Seq<char>, bridge: Seq<char>) -> Seq<Removal> {
    seq![Removal::HangUp(media), Removal::Destroy(bridge)]
}

/// The removal of a call: its outbound channel, its media channel and its
/// bridge.
pub open spec fn call_removals(
    outbound: Seq<char>,
    media: Seq<char>,
    bridge: Seq<char>,
) -> Seq<Removal> {
    seq![Removal::HangUp(outbound), Removal::HangUp(media), Removal::Destroy(bridge)]
}

/// The request that removes something.
pub open spec fn removal_request(base_url: Seq<char>, removal: Removal) -> Result<
    RestModel,
    AriFault,
> {
    let path = match removal {
        Removal::HangUp(channel) => channel_path(channel),
        Removal::Destroy(bridge) => bridge_path(bridge),
    };
    rest_request(base_url, Method::Delete, path, Seq::empty())
}

/// Lists the removal of a media channel and its bridge.
fn remove_media(media: &str, bridge: &str) -> (steps: Vec<Cleanup>)
    ensures
        removals(steps@) == media_removals(media@, bridge@),
{
    let mut steps: Vec<Cleanup> = Vec::new();
    steps.push(Cleanup::HangUp(String::from_str(media)));
    steps.push(Cleanup::Destroy(String::from_str(bridge)));
    assert(removals(steps@) =~= media_removals(media@, bridge@));
    steps
}

/// Lists the removal of a call.
fn remove_call(outbound: &str, media: &str, bridge: &str) -> (steps: Vec<Cleanup>)
    ensures
        removals(steps@) == call_removals(outbound@, media@, bridge@),
{
    let mut steps: Vec<Cleanup> = Vec::new();
    steps.push(Cleanup::HangUp(String::from_str(outbound)));
    steps.push(Cleanup::HangUp(String::from_str(media)));
    steps.push(Cleanup::Destroy(String::from_str(bridge)));
    assert(removals(steps@) =~= call_removals(outbound@, media@, bridge@));
    steps
}

impl AriController {
    /// The request that removes something.
    pub fn cleanup_request(&self, step: &Cleanup) -> (r: Result<RestRequest, AriError>)
        ensures
            attempt(r) == (match step@ {
                Removal::HangUp(channel) => rest_request(
                    self.base_url@,
                    Method::Delete,
                    channel_path(channel),
                    Seq::empty(),
                ),
                Removal::Destroy(bridge) => rest_request(
                    self.base_url@,
                    Method::Delete,
                    bridge_path(bridge),
                    Seq::empty(),
                ),
            }),
            attempt(r) == removal_request(self.base_url@, step@),
    {
        match step {
            Cleanup::HangUp(channel) => self.hangup_channel(channel.as_str()),
            Cleanup::Destroy(bridge) => self.destroy_bridge(bridge.as_str()),
        }
    }

    /// What to remove of a media setup that never became a call.
    pub fn cleanup_media(&self, setup: &MediaSetup) -> (steps: Vec<Cleanup>)
        ensures
            removals(steps@) == media_removals(setup.media_channel_id@, setup.bridge_id@),
    {
        remove_media(setup.media_channel_id.as_str(), setup.bridge_id.as_str())
    }

    /// What to remove of a call that is over.
    pub fn teardown(&self, call: &ActiveCall) -> (steps: Vec<Cleanup>)
        ensures
            removals(steps@) == call_removals(
                call.outbound_channel_id@,
                call.media_channel_id@,
                call.bridge_id@,
            ),
    {
        remove_call(
            call.outbound_channel_id.as_str(),
            call.media_channel_id.as_str(),
            call.bridge_id.as_str(),
        )
    }
}

// --- Setting up media ---

/// How far the setup of a media channel has come.
#[derive(Debug, Clone, Copy, PartialEq, Eq, Structural)]
pub enum MediaStage {
    /// The bridge is being created.
    CreatingBridge,
    /// The media channel is being created.
    CreatingChannel,
    /// The connection identifier of the media channel is waited for.
    AwaitingConnection,
}

/// The setup of a media channel. It begins with the creation of the bridge.
#[derive(Debug)]
pub struct MediaPlan {
    pub bridge_id: String,
    pub media_channel_id: String,
    pub stage: MediaStage,
}

/// How a step of the setup went.
#[derive(Debug, Clone, Copy)]
pub enum MediaEvent<'a> {
    /// What was to be created is there.
    Created,
    /// The media channel has this connection identifier.
    Connected(&'a str),
    /// The step failed.
    Failed,
}

/// What to do after a step of the setup.
#[derive(Debug)]
pub enum MediaAction {
    /// Create the media channel, with the request of the stage that the setup is
    /// now at.
    CreateChannel,
    /// Wait for the connection identifier of the media channel, with the request
    /// of the stage that the setup is now at.
    AwaitConnection,
    /// The media channel is set up.
    Ready(MediaSetup),
    /// Remove what was created. The setup has failed.
    Abort(Vec<Cleanup>),
    /// The setup has failed.
    Fail(AriError),
}

/// What to do after a step of the setup, with texts as sequences.
pub enum MediaMove {
    CreateChannel,
    AwaitConnection,
    Ready { bridge: Seq<char>, media: Seq<char>, url: Seq<char> },
    Abort(Seq<Removal>),
    Fail(AriFault),
}

impl View for MediaAction {
    type V = MediaMove;

    open spec fn view(&self) -> MediaMove {
        match self {
            MediaAction::CreateChannel => MediaMove::CreateChannel,
            MediaAction::AwaitConnection => MediaMove::AwaitConnection,
            MediaAction::Ready(setup) => MediaMove::Ready {
                bridge: setup.bridge_id@,
                media: setup.media_channel_id@,
                url: setup.media_websocket_url@,
            },
            MediaAction::Abort(steps) => MediaMove::Abort(removals(steps@)),
            MediaAction::Fail(e) => MediaMove::Fail(e@),
        }
    }
}

/// The request to send at a stage of the setup: it creates the bridge, creates
/// the media channel, or queries the variable that holds the connection
/// identifier.
pub open spec fn media_request_at(
    base_url: Seq<char>,
    bridge: Seq<char>,
    media: Seq<char>,
    stage: MediaStage,
    req: RequestModel,
) -> Result<RestModel, AriFault> {
    match stage {
        MediaStage::CreatingBridge => rest_request(
            base_url,
            Method::Post,
            "/bridges"@,
            seq![("type"@, "mixing,proxy_media"@), ("bridgeId"@, bridge)],
        ),
        MediaStage::CreatingChannel => rest_request(
            base_url,
            Method::Post,
            "/channels/externalMedia"@,
            request_query(req).push(("channelId"@, media)),
        ),
        MediaStage::AwaitingConnection => rest_request(
            base_url,
            Method::Get,
            channel_path(media) + "/variable"@,
            seq![("variable"@, CONNECTION_ID_VARIABLE@)],
        ),
    }
}

/// Whether an event can happen at a stage of the setup.
pub open spec fn media_expected(stage: MediaStage, event: MediaEvent) -> bool {
    match event {
        MediaEvent::Created => !(stage is AwaitingConnection),
        MediaEvent::Connected(_) => stage is AwaitingConnection,
        MediaEvent::Failed => true,
    }
}

/// What an event makes of the setup of a media channel.
pub open spec fn media_step(
    base_url: Seq<char>,
    bridge: Seq<char>,
    media: Seq<char>,
    stage: MediaStage,
    event: MediaEvent,
) -> (MediaStage, MediaMove) {
    match event {
        MediaEvent::Created => if stage is CreatingBridge {
            (MediaStage::CreatingChannel, MediaMove::CreateChannel)
        } else {
            (MediaStage::AwaitingConnection, MediaMove::AwaitConnection)
        },
        MediaEvent::Connected(connection_id) => (
            stage,
            match media_socket(base_url, connection_id@) {
                Ok(url) => MediaMove::Ready { bridge, media, url },
                Err(fault) => MediaMove::Fail(AriFault::Media(fault)),
            },
        ),
        MediaEvent::Failed => (
            stage,
            MediaMove::Abort(
                match stage {
                    MediaStage::CreatingBridge => Seq::empty(),
                    MediaStage::CreatingChannel => seq![Removal::Destroy(bridge)],
                    MediaStage::AwaitingConnection => media_removals(media, bridge),
                },
            ),
        ),
    }
}

impl AriController {
    /// Begins the setup of a media channel with given identifiers.
    pub fn setup_media_with(
        &self,
        media_req: &ExternalMediaRequest,
        bridge_id: String,
        media_channel_id: String,
    ) -> (r: Result<MediaPlan, AriError>)
        requires
            media_req.app@.len() > 0,
        ensures
            match r {
                Ok(plan) => {
                    &&& supported_mode(media_req@)
                    &&& plan.bridge_id@ == bridge_id@
                    &&& plan.media_channel_id@ == media_channel_id@
                    &&& plan.stage is CreatingBridge
                },
                Err(e) => {
                    &&& !supported_mode(media_req@)
                    &&& e@ == AriFault::UnsupportedMode(
                        media_req.transport,
                        media_req.encapsulation,
                        media_req.connection_type@,
                    )
                },
            },
    {
        match self.validate_media_mode(media_req) {
            Ok(_) => Ok(
                MediaPlan { bridge_id, media_channel_id, stage: MediaStage::CreatingBridge },
            ),
            Err(e) => Err(e),
        }
    }

    /// Begins the setup of a media channel for the process `pid`.
    pub fn setup_media(&self, media_req: &ExternalMediaRequest, pid: u32) -> (r: Result<
        MediaPlan,
        AriError,
    >)
        requires
            media_req.app@.len() > 0,
        ensures
            match r {
                Ok(plan) => {
                    &&& supported_mode(media_req@)
                    &&& exists|micros: nat|
                        plan.bridge_id@ == #[trigger] unique_id_text(
                            "slmodem-bridge"@,
                            micros,
                            pid as nat,
                        )
                    &&& exists|micros: nat|
                        plan.media_channel_id@ == #[trigger] unique_id_text(
                            "slmodem-media"@,
                            micros,
                            pid as nat,
                        )
                    &&& plan.stage is CreatingBridge
                },
                Err(e) => {
                    &&& !supported_mode(media_req@)
                    &&& e@ == AriFault::UnsupportedMode(
                        media_req.transport,
                        media_req.encapsulation,
                        media_req.connection_type@,
                    )
                },
            },
    {
        let bridge_id = unique_id("slmodem-bridge", pid);
        let media_channel_id = unique_id("slmodem-media", pid);
        self.setup_media_with(media_req, bridge_id, media_channel_id)
    }

    /// The request to send at the stage that the setup of a media channel is at.
    pub fn media_request(&self, plan: &MediaPlan, media_req: &ExternalMediaRequest) -> (r: Result<
        RestRequest,
        AriError,
    >)
        ensures
            attempt(r) == media_request_at(
                self.base_url@,
                plan.bridge_id@,
                plan.media_channel_id@,
                plan.stage,
                media_req@,
            ),
    {
        match plan.stage {
            MediaStage::CreatingBridge => self.create_bridge(plan.bridge_id.as_str()),
            MediaStage::CreatingChannel => self.create_external_media(
                plan.media_channel_id.as_str(),
                media_req,
            ),
            MediaStage::AwaitingConnection => self.get_channel_variable(
                plan.media_channel_id.as_str(),
                CONNECTION_ID_VARIABLE,
            ),
        }
    }

    /// Handles how a step of the setup of a media channel went.
    pub fn media_event(&self, plan: &mut MediaPlan, event: MediaEvent) -> (action: MediaAction)
        requires
            media_expected(old(plan).stage, event),
        ensures
            final(plan).bridge_id == old(plan).bridge_id,
            final(plan).media_channel_id == old(plan).media_channel_id,
            (final(plan).stage, action@) == media_step(
                self.base_url@,
                old(plan).bridge_id@,
                old(plan).media_channel_id@,
                old(plan).stage,
                event,
            ),
    {
        match event {
            MediaEvent::Created => match plan.stage {
                MediaStage::CreatingBridge => {
                    plan.stage = MediaStage::CreatingChannel;
                    MediaAction::CreateChannel
                },
                _ => {
                    plan.stage = MediaStage::AwaitingConnection;
                    MediaAction::AwaitConnection
                },
            },
            MediaEvent::Connected(connection_id) => match self.media_websocket_url(connection_id) {
                Ok(media_websocket_url) => MediaAction::Ready(
                    MediaSetup {
                        bridge_id: String::from_str(plan.bridge_id.as_str()),
                        media_channel_id: String::from_str(plan.media_channel_id.as_str()),
                        media_websocket_url,
                    },
                ),
                Err(e) => MediaAction::Fail(e),
            },
            MediaEvent::Failed => match plan.stage {
                MediaStage::CreatingBridge => {
                    let steps: Vec<Cleanup> = Vec::new();
                    assert(removals(steps@) =~= Seq::empty());
                    MediaAction::Abort(steps)
                },
                MediaStage::CreatingChannel => {
                    let mut steps: Vec<Cleanup> = Vec::new();
                    steps.push(Cleanup::Destroy(String::from_str(plan.bridge_id.as_str())));
                    assert(removals(steps@) =~= seq![Removal::Destroy(plan.bridge_id@)]);
                    MediaAction::Abort(steps)
                },
                MediaStage::AwaitingConnection => MediaAction::Abort(
                    remove_media(plan.media_channel_id.as_str(), plan.bridge_id.as_str()),
                ),
            },
        }
    }
}

// --- Dialling ---

/// How far a call has come.
#[derive(Debug, Clone, Copy, PartialEq, Eq, Structural)]
pub enum OutboundStage {
    /// The outbound channel is being created.
    Creating,
    /// The outbound channel is being dialled.
    Dialing,
    /// The channels are being put into the bridge.
    Bridging,
    /// The answer is waited for.
    Answering,
}

/// A call that is being placed. It begins with the creation of the outbound
/// channel.
#[derive(Debug)]
pub struct OutboundPlan {
    pub dial: String,
    pub app: String,
    pub bridge_id: String,
    pub media_channel_id: String,
    pub outbound_channel_id: String,
    pub stage: OutboundStage,
}

/// A call that is being placed, with texts as sequences.
pub struct OutboundModel {
    pub dial: Seq<char>,
    pub app: Seq<char>,
    pub bridge: Seq<char>,
    pub media: Seq<char>,
    pub outbound: Seq<char>,
    pub stage: OutboundStage,
}

impl View for OutboundPlan {
    type V = OutboundModel;

    open spec fn view(&self) -> OutboundModel {
        OutboundModel {
            dial: self.dial@,
            app: self.app@,
            bridge: self.bridge_id@,
            media: self.media_channel_id@,
            outbound: self.outbound_channel_id@,
            stage: self.stage,
        }
    }
}

/// What to do after a step of placing a call.
#[derive(Debug)]
pub enum OutboundStep {
    /// Go on with the request of the stage that the call is now at.
    Proceed,
    /// The call is answered and bridged.
    Ready(ActiveCall),
    /// Remove what was created. The call has failed.
    Abort(Vec<Cleanup>),
}

/// What to do after a step of placing a call, with texts as sequences.
pub enum OutboundMove {
    Proceed,
    Ready { bridge: Seq<char>, media: Seq<char>, outbound: Seq<char> },
    Abort(Seq<Removal>),
}

impl View for OutboundStep {
    type V = OutboundMove;

    open spec fn view(&self) -> OutboundMove {
        match self {
            OutboundStep::Proceed => OutboundMove::Proceed,
            OutboundStep::Ready(call) => OutboundMove::Ready {
                bridge: call.bridge_id@,
                media: call.media_channel_id@,
                outbound: call.outbound_channel_id@,
            },
            OutboundStep::Abort(steps) => OutboundMove::Abort(removals(steps@)),
        }
    }
}

/// The request to send at the stage that a call is at: it creates the outbound
/// channel, dials it, puts it and the media channel into the bridge, or queries
/// its state.
pub open spec fn outbound_request_at(
    base_url: Seq<char>,
    template: Seq<char>,
    timeout_secs: nat,
    m: OutboundModel,
) -> Result<RestModel, AriFault> {
    match m.stage {
        OutboundStage::Creating => rest_request(
            base_url,
            Method::Post,
            "/channels/create"@,
            seq![
                ("endpoint"@, replaced(template, "{dial}"@, m.dial)),
                ("app"@, m.app),
                ("channelId"@, m.outbound),
                ("appArgs"@, m.dial),
            ],
        ),
        OutboundStage::Dialing => rest_request(
            base_url,
            Method::Post,
            channel_path(m.outbound) + "/dial"@,
            seq![("timeout"@, decimal(timeout_secs))],
        ),
        OutboundStage::Bridging => rest_request(
            base_url,
            Method::Post,
            bridge_path(m.bridge) + "/addChannel"@,
            seq![("channel"@, m.outbound + ","@ + m.media)],
        ),
        OutboundStage::Answering => rest_request(
            base_url,
            Method::Get,
            channel_path(m.outbound),
            Seq::empty(),
        ),
    }
}

/// What the success or failure of a step makes of a call. A call that fails
/// before the outbound channel is dialled removes the media channel and the
/// bridge only.
pub open spec fn outbound_step(m: OutboundModel, succeeded: bool) -> (OutboundModel, OutboundMove) {
    if succeeded {
        match m.stage {
            OutboundStage::Creating => (
                OutboundModel { stage: OutboundStage::Dialing, ..m },
                OutboundMove::Proceed,
            ),
            OutboundStage::Dialing => (
                OutboundModel { stage: OutboundStage::Bridging, ..m },
                OutboundMove::Proceed,
            ),
            OutboundStage::Bridging => (
                OutboundModel { stage: OutboundStage::Answering, ..m },
                OutboundMove::Proceed,
            ),
            OutboundStage::Answering => (
                m,
                OutboundMove::Ready { bridge: m.bridge, media: m.media, outbound: m.outbound },
            ),
        }
    } else {
        (
            m,
            OutboundMove::Abort(
                match m.stage {
                    OutboundStage::Creating => media_removals(m.media, m.bridge),
                    OutboundStage::Dialing => media_removals(m.media, m.bridge),
                    _ => call_removals(m.outbound, m.media, m.bridge),
                },
            ),
        )
    }
}

/// A call to `dial` at its beginning, for which the media channel is set up.
pub open spec fn outbound_begun(
    dial: Seq<char>,
    app: Seq<char>,
    setup: MediaSetup,
    outbound: Seq<char>,
) -> OutboundModel {
    OutboundModel {
        dial,
        app,
        bridge: setup.bridge_id@,
        media: setup.media_channel_id@,
        outbound,
        stage: OutboundStage::Creating,
    }
}

impl AriController {
    /// Begins a call to `dial`, for which the media channel is set up, with a
    /// given identifier.
    pub fn dial_and_bridge_with(
        &self,
        dial: &str,
        app: &str,
        setup: &MediaSetup,
        outbound_channel_id: String,
    ) -> (plan: OutboundPlan)
        requires
            dial@.len() > 0,
        ensures
            plan@ == outbound_begun(dial@, app@, *setup, outbound_channel_id@),
    {
        OutboundPlan {
            dial: String::from_str(dial),
            app: String::from_str(app),
            bridge_id: String::from_str(setup.bridge_id.as_str()),
            media_channel_id: String::from_str(setup.media_channel_id.as_str()),
            outbound_channel_id,
            stage: OutboundStage::Creating,
        }
    }

    /// Begins a call to `dial`, for which the media channel is set up, for the
    /// process `pid`.
    pub fn dial_and_bridge(&self, dial: &str, app: &str, setup: &MediaSetup, pid: u32) -> (plan:
        OutboundPlan)
        requires
            dial@.len() > 0,
        ensures
            exists|micros: nat|
                plan@ == outbound_begun(
                    dial@,
                    app@,
                    *setup,
                    #[trigger] unique_id_text("slmodem-out"@, micros, pid as nat),
                ),
    {
        let outbound_channel_id = unique_id("slmodem-out", pid);
        self.dial_and_bridge_with(dial, app, setup, outbound_channel_id)
    }

    /// The request to send at the stage that a call is at.
    pub fn outbound_request(&self, plan: &OutboundPlan) -> (r: Result<RestRequest, AriError>)
        ensures
            attempt(r) == outbound_request_at(
                self.base_url@,
                self.dial_endpoint_template@,
                self.originate_timeout.secs as nat,
                plan@,
            ),
    {
        match plan.stage {
            OutboundStage::Creating => self.create_outbound(
                plan.dial.as_str(),
                plan.outbound_channel_id.as_str(),
                plan.app.as_str(),
            ),
            OutboundStage::Dialing => self.dial_outbound(plan.outbound_channel_id.as_str()),
            OutboundStage::Bridging => self.add_channels_to_bridge(
                plan.bridge_id.as_str(),
                plan.outbound_channel_id.as_str(),
                plan.media_channel_id.as_str(),
            ),
            OutboundStage::Answering => self.get_channel_state(plan.outbound_channel_id.as_str()),
        }
    }
}

impl OutboundPlan {
    /// Handles the success or failure of a step of placing the call.
    pub fn on_step(&mut self, succeeded: bool) -> (action: OutboundStep)
        ensures
            (final(self)@, action@) == outbound_step(old(self)@, succeeded),
    {
        if succeeded {
            match self.stage {
                OutboundStage::Creating => {
                    self.stage = OutboundStage::Dialing;
                    OutboundStep::Proceed
                },
                OutboundStage::Dialing => {
                    self.stage = OutboundStage::Bridging;
                    OutboundStep::Proceed
                },
                OutboundStage::Bridging => {
                    self.stage = OutboundStage::Answering;
                    OutboundStep::Proceed
                },
                OutboundStage::Answering => OutboundStep::Ready(
                    ActiveCall {
                        bridge_id: String::from_str(self.bridge_id.as_str()),
                        outbound_channel_id: String::from_str(self.outbound_channel_id.as_str()),
                        media_channel_id: String::from_str(self.media_channel_id.as_str()),
                    },
                ),
            }
        } else {
            match self.stage {
                OutboundStage::Creating | OutboundStage::Dialing => OutboundStep::Abort(
                    remove_media(self.media_channel_id.as_str(), self.bridge_id.as_str()),
                ),
                OutboundStage::Bridging | OutboundStage::Answering => OutboundStep::Abort(
                    remove_call(
                        self.outbound_channel_id.as_str(),
                        self.media_channel_id.as_str(),
                        self.bridge_id.as_str(),
                    ),
                ),
            }
        }
    }
}

// --- Laws ---

/// What the setup of a media channel has created when it is at a stage, the
/// last first.
pub open spec fn created(bridge: Seq<char>, media: Seq<char>, stage: MediaStage) -> Seq<Removal> {
    match stage {
        MediaStage::CreatingBridge => Seq::empty(),
        MediaStage::CreatingChannel => seq![Removal::Destroy(bridge)],
        MediaStage::AwaitingConnection => seq![Removal::HangUp(media), Removal::Destroy(bridge)],
    }
}

/// A setup that fails at the server leaves nothing behind: it removes what it
/// has created, the last first.
pub proof fn law_failed_setup_removed(
    base_url: Seq<char>,
    bridge: Seq<char>,
    media: Seq<char>,
    stage: MediaStage,
)
    ensures
        media_step(base_url, bridge, media, stage, MediaEvent::Failed).1 == MediaMove::Abort(
            created(bridge, media, stage),
        ),
{
}

/// A call that fails takes its media channel and its bridge with it. Once the
/// outbound channel is dialled, it is hung up first, as when a call is over.
pub proof fn law_failed_call_removed(m: OutboundModel)
    ensures
        match outbound_step(m, false).1 {
            OutboundMove::Abort(steps) => {
                &&& steps.len() >= 2
                &&& steps.skip(steps.len() - 2) == media_removals(m.media, m.bridge)
                &&& m.stage is Bridging || m.stage is Answering ==> steps == call_removals(
                    m.outbound,
                    m.media,
                    m.bridge,
                )
            },
            _ => false,
        },
{
    let steps = call_removals(m.outbound, m.media, m.bridge);
    assert(steps.skip(1) =~= media_removals(m.media, m.bridge));
    assert(media_removals(m.media, m.bridge).skip(0) =~= media_removals(m.media, m.bridge));
}

/// The course of a setup: the bridge is created first, then the channel, and then
/// its connection is waited for; the connection makes the media ready, under the
/// identifiers of both and the URL of that connection.
pub proof fn law_setup_course(
    base_url: Seq<char>,
    bridge: Seq<char>,
    media: Seq<char>,
    connection_id: &str,
)
    ensures
        media_step(base_url, bridge, media, MediaStage::CreatingBridge, MediaEvent::Created) == (
            MediaStage::CreatingChannel,
            MediaMove::CreateChannel,
        ),
        media_step(base_url, bridge, media, MediaStage::CreatingChannel, MediaEvent::Created) == (
            MediaStage::AwaitingConnection,
            MediaMove::AwaitConnection,
        ),
        media_step(
            base_url,
            bridge,
            media,
            MediaStage::AwaitingConnection,
            MediaEvent::Connected(connection_id),
        ).1 == (match media_socket(base_url, connection_id@) {
            Ok(url) => MediaMove::Ready { bridge, media, url },
            Err(fault) => MediaMove::Fail(AriFault::Media(fault)),
        }),
{
}

/// What a failed setup removes, stage by stage: nothing, the bridge, or the
/// channel and then the bridge.
pub proof fn law_setup_failed(base_url: Seq<char>, bridge: Seq<char>, media: Seq<char>)
    ensures
        ({
            let failed = |stage: MediaStage|
                media_step(base_url, bridge, media, stage, MediaEvent::Failed);
            &&& failed(MediaStage::CreatingBridge) == (
                MediaStage::CreatingBridge,
                MediaMove::Abort(Seq::empty()),
            )
            &&& failed(MediaStage::CreatingChannel) == (
                MediaStage::CreatingChannel,
                MediaMove::Abort(seq![Removal::Destroy(bridge)]),
            )
            &&& failed(MediaStage::AwaitingConnection) == (
                MediaStage::AwaitingConnection,
                MediaMove::Abort(seq![Removal::HangUp(media), Removal::Destroy(bridge)]),
            )
        }),
{
}

/// The course of a call: its channel is created, dialled, put into the bridge with
/// the media channel, and answered; nothing of the call changes on the way, and
/// the call that is ready has the identifiers that it began with.
pub proof fn law_call_course(m: OutboundModel)
    ensures
        ({
            let (after, action) = outbound_step(m, true);
            &&& after == (OutboundModel { stage: after.stage, ..m })
            &&& m.stage is Creating ==> after.stage is Dialing
            &&& m.stage is Dialing ==> after.stage is Bridging
            &&& m.stage is Bridging || m.stage is Answering ==> after.stage is Answering
            &&& !(m.stage is Answering) ==> action is Proceed
            &&& m.stage is Answering ==> action == (OutboundMove::Ready {
                bridge: m.bridge,
                media: m.media,
                outbound: m.outbound,
            })
        }),
        ({
            let (after, action) = outbound_step(m, false);
            &&& after == m
            &&& m.stage is Creating || m.stage is Dialing ==> action == OutboundMove::Abort(
                seq![Removal::HangUp(m.media), Removal::Destroy(m.bridge)],
            )
            &&& m.stage is Bridging || m.stage is Answering ==> action == OutboundMove::Abort(
                seq![
                    Removal::HangUp(m.outbound),
                    Removal::HangUp(m.media),
                    Removal::Destroy(m.bridge),
                ],
            )
        }),
{
}

/// What is asked of the server at each stage of a setup.
pub proof fn law_setup_requests(
    base_url: Seq<char>,
    bridge: Seq<char>,
    media: Seq<char>,
    req: RequestModel,
)
    ensures
        ({
            let at = |stage: MediaStage| media_request_at(base_url, bridge, media, stage, req);
            &&& at(MediaStage::CreatingBridge) == rest_request(
                base_url,
                Method::Post,
                "/bridges"@,
                seq![("type"@, "mixing,proxy_media"@), ("bridgeId"@, bridge)],
            )
            &&& at(MediaStage::CreatingChannel) == rest_request(
                base_url,
                Method::Post,
                "/channels/externalMedia"@,
                request_query(req) + seq![("channelId"@, media)],
            )
            &&& at(MediaStage::AwaitingConnection) == rest_request(
                base_url,
                Method::Get,
                "/channels/"@ + media + "/variable"@,
                seq![("variable"@, "MEDIA_WEBSOCKET_CONNECTION_ID"@)],
            )
        }),
{
    assert(request_query(req).push(("channelId"@, media)) =~= request_query(req) + seq![
        ("channelId"@, media),
    ]);
}

/// What is asked of the server at each stage of a call.
pub proof fn law_call_requests(
    base_url: Seq<char>,
    template: Seq<char>,
    timeout_secs: nat,
    m: OutboundModel,
)
    ensures
        ({
            let request = outbound_request_at(base_url, template, timeout_secs, m);
            &&& m.stage is Creating ==> request == rest_request(
                base_url,
                Method::Post,
                "/channels/create"@,
                seq![
                    ("endpoint"@, replaced(template, "{dial}"@, m.dial)),
                    ("app"@, m.app),
                    ("channelId"@, m.outbound),
                    ("appArgs"@, m.dial),
                ],
            )
            &&& m.stage is Dialing ==> request == rest_request(
                base_url,
                Method::Post,
                "/channels/"@ + m.outbound + "/dial"@,
                seq![("timeout"@, decimal(timeout_secs))],
            )
            &&& m.stage is Bridging ==> request == rest_request(
                base_url,
                Method::Post,
                "/bridges/"@ + m.bridge + "/addChannel"@,
                seq![("channel"@, m.outbound + seq![','] + m.media)],
            )
            &&& m.stage is Answering ==> request == rest_request(
                base_url,
                Method::Get,
                "/channels/"@ + m.outbound,
                Seq::empty(),
            )
        }),
{
    reveal_strlit(",");
    assert(","@ =~= seq![',']);
}

/// What is removed of a call that is over, and how: first the outbound channel,
/// then the media channel and at last the bridge, each deleted under its own path.
/// A setup without a call leaves out the first.
pub proof fn law_removed(
    base_url: Seq<char>,
    outbound: Seq<char>,
    media: Seq<char>,
    bridge: Seq<char>,
)
    ensures
        call_removals(outbound, media, bridge) == seq![Removal::HangUp(outbound)]
            + media_removals(media, bridge),
        media_removals(media, bridge) == seq![Removal::HangUp(media)] + seq![
            Removal::Destroy(bridge),
        ],
        removal_request(base_url, Removal::HangUp(media)) == rest_request(
            base_url,
            Method::Delete,
            "/channels/"@ + media,
            Seq::empty(),
        ),
        removal_request(base_url, Removal::Destroy(bridge)) == rest_request(
            base_url,
            Method::Delete,
            "/bridges/"@ + bridge,
            Seq::empty(),
        ),
{
}

} // verus!
