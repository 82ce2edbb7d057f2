//! Command classification for the bundled services. Each service runs
//! outside the library, against its own backend; what stands here is
//! the part the broker's requests decide: which command a request
//! names, with which argument, and how a reply payload is shaped.

use crate::service::Reply;
use crate::text::{
    clone_chars, eq_str, join_spaced, join_spaced_spec, str_chars, strip_pct_chars,
    strip_pct_spec, sub_chars, tokenize, tokens_spec, tokens_view, trim_chars, trim_end_spec,
    trim_start_spec,
};
use crate::wire::{split_at_char, split_at_char_spec};
use vstd::prelude::*;

verus! {

/// A request service that serves page scripts from a library directory.
pub struct LibService;

impl LibService {
    /// The file a script request names: `<request>.js`.
    pub fn lib_file_name(request: &[char]) -> (r: Vec<char>)
        ensures
            r@ == request@ + ".js"@,
    {
        let mut r = sub_chars(request, 0, request.len());
        let suffix = str_chars(".js");
        r.extend_from_slice(suffix.as_slice());
        proof {
            assert(r@ =~= request@ + ".js"@);
        }
        r
    }
}

/// A request service answering system questions (user, host, cpu,
/// memory, uptime).
pub struct SysInfoService {}

/// The question a sysinfo request asks.
#[derive(Clone, Copy, Debug, PartialEq, Eq, Structural)]
pub enum SysInfoQuery {
    User,
    Host,
    Cpu,
    TotalMem,
    UsedMem,
    Uptime,
    Invalid,
}

/// The question named by a sysinfo request body.
pub open spec fn sys_info_query_spec(s: Seq<char>) -> SysInfoQuery {
    if s == "user"@ {
        SysInfoQuery::User
    } else if s == "host"@ {
        SysInfoQuery::Host
    } else if s == "cpu"@ {
        SysInfoQuery::Cpu
    } else if s == "total_mem"@ {
        SysInfoQuery::TotalMem
    } else if s == "used_mem"@ {
        SysInfoQuery::UsedMem
    } else if s == "uptime"@ {
        SysInfoQuery::Uptime
    } else {
        SysInfoQuery::Invalid
    }
}

impl SysInfoService {
    /// Which question a request asks.
    pub fn classify(request: &[char]) -> (r: SysInfoQuery)
        ensures
            r == sys_info_query_spec(request@),
    {
        if eq_str(request, "user") {
            SysInfoQuery::User
        } else if eq_str(request, "host") {
            SysInfoQuery::Host
        } else if eq_str(request, "cpu") {
            SysInfoQuery::Cpu
        } else if eq_str(request, "total_mem") {
            SysInfoQuery::TotalMem
        } else if eq_str(request, "used_mem") {
            SysInfoQuery::UsedMem
        } else if eq_str(request, "uptime") {
            SysInfoQuery::Uptime
        } else {
            SysInfoQuery::Invalid
        }
    }
}

/// A request service controlling a music player daemon, beside a
/// broadcast service for its events.
pub struct MpdService {}

/// The player command a request names.
#[derive(Clone, Copy, Debug, PartialEq, Eq, Structural)]
pub enum MpdCommand {
    Play,
    Pause,
    Next,
    Prev,
    CurrentSong,
    Status,
    Invalid,
}

/// The player command named by a request body.
pub open spec fn mpd_command_spec(s: Seq<char>) -> MpdCommand {
    if s == "play"@ {
        MpdCommand::Play
    } else if s == "pause"@ {
        MpdCommand::Pause
    } else if s == "next"@ {
        MpdCommand::Next
    } else if s == "prev"@ {
        MpdCommand::Prev
    } else if s == "currentsong"@ {
        MpdCommand::CurrentSong
    } else if s == "status"@ {
        MpdCommand::Status
    } else {
        MpdCommand::Invalid
    }
}

impl MpdService {
    /// Which player command a request names.
    pub fn classify(request: &[char]) -> (r: MpdCommand)
        ensures
            r == mpd_command_spec(request@),
    {
        if eq_str(request, "play") {
            MpdCommand::Play
        } else if eq_str(request, "pause") {
            MpdCommand::Pause
        } else if eq_str(request, "next") {
            MpdCommand::Next
        } else if eq_str(request, "prev") {
            MpdCommand::Prev
        } else if eq_str(request, "currentsong") {
            MpdCommand::CurrentSong
        } else if eq_str(request, "status") {
            MpdCommand::Status
        } else {
            MpdCommand::Invalid
        }
    }
}

/// A request service controlling the system audio server.
pub struct PulseAudioService;

/// The mixer command a request names; volume commands carry their
/// argument token when one was given.
pub enum PulseCommand {
    VolGetSink,
    VolSetSink(Option<Vec<char>>),
    VolIncSink(Option<Vec<char>>),
    VolDecSink(Option<Vec<char>>),
    VolMuteSink,
    VolUnmuteSink,
    VolMuteMic,
    VolUnmuteMic,
    Unknown(Vec<char>),
}

/// Mathematical value of a `PulseCommand`.
#[verifier::ext_equal]
pub ghost enum PulseCommandV {
    VolGetSink,
    VolSetSink(Option<Seq<char>>),
    VolIncSink(Option<Seq<char>>),
    VolDecSink(Option<Seq<char>>),
    VolMuteSink,
    VolUnmuteSink,
    VolMuteMic,
    VolUnmuteMic,
    Unknown(Seq<char>),
}

impl View for PulseCommand {
    type V = PulseCommandV;

    open spec fn view(&self) -> PulseCommandV {
        match self {
            PulseCommand::VolGetSink => PulseCommandV::VolGetSink,
            PulseCommand::VolSetSink(a) => PulseCommandV::VolSetSink(
                match a {
                    Some(v) => Some(v@),
                    None => None,
                },
            ),
            PulseCommand::VolIncSink(a) => PulseCommandV::VolIncSink(
                match a {
                    Some(v) => Some(v@),
                    None => None,
                },
            ),
            PulseCommand::VolDecSink(a) => PulseCommandV::VolDecSink(
                match a {
                    Some(v) => Some(v@),
                    None => None,
                },
            ),
            PulseCommand::VolMuteSink => PulseCommandV::VolMuteSink,
            PulseCommand::VolUnmuteSink => PulseCommandV::VolUnmuteSink,
            PulseCommand::VolMuteMic => PulseCommandV::VolMuteMic,
            PulseCommand::VolUnmuteMic => PulseCommandV::VolUnmuteMic,
            PulseCommand::Unknown(c) => PulseCommandV::Unknown(c@),
        }
    }
}

/// The mixer command named by a request body: the first whitespace
/// token picks the command, the second is its argument.
pub open spec fn pulse_command_spec(s: Seq<char>) -> PulseCommandV {
    let ts = tokens_spec(s);
    let cmd = if ts.len() > 0 {
        ts[0]
    } else {
        Seq::empty()
    };
    let arg = if ts.len() > 1 {
        Some(ts[1])
    } else {
        None
    };
    if cmd == "vol_get_sink"@ {
        PulseCommandV::VolGetSink
    } else if cmd == "vol_set_sink"@ {
        PulseCommandV::VolSetSink(arg)
    } else if cmd == "vol_inc_sink"@ {
        PulseCommandV::VolIncSink(arg)
    } else if cmd == "vol_dec_sink"@ {
        PulseCommandV::VolDecSink(arg)
    } else if cmd == "vol_mute_sink"@ {
        PulseCommandV::VolMuteSink
    } else if cmd == "vol_unmute_sink"@ {
        PulseCommandV::VolUnmuteSink
    } else if cmd == "vol_mute_mic"@ {
        PulseCommandV::VolMuteMic
    } else if cmd == "vol_unmute_mic"@ {
        PulseCommandV::VolUnmuteMic
    } else {
        PulseCommandV::Unknown(cmd)
    }
}

impl PulseAudioService {
    /// Which mixer command a request names.
    pub fn classify(request: &[char]) -> (r: PulseCommand)
        ensures
            r@ == pulse_command_spec(request@),
    {
        let tokens = tokenize(request);
        let empty: Vec<char> = Vec::new();
        let cmd: &[char] = if tokens.len() > 0 {
            tokens[0].as_slice()
        } else {
            empty.as_slice()
        };
        proof {
            if tokens@.len() > 0 {
                assert(cmd@ == tokens_view(tokens@)[0]);
            } else {
                assert(cmd@ =~= Seq::<char>::empty());
            }
        }
        let arg: Option<Vec<char>> = if tokens.len() > 1 {
            Some(clone_chars(&tokens[1]))
        } else {
            None
        };
        proof {
            if tokens@.len() > 1 {
                assert(tokens_view(tokens@)[1] == tokens@[1]@);
            }
        }
        if eq_str(cmd, "vol_get_sink") {
            PulseCommand::VolGetSink
        } else if eq_str(cmd, "vol_set_sink") {
            PulseCommand::VolSetSink(arg)
        } else if eq_str(cmd, "vol_inc_sink") {
            PulseCommand::VolIncSink(arg)
        } else if eq_str(cmd, "vol_dec_sink") {
            PulseCommand::VolDecSink(arg)
        } else if eq_str(cmd, "vol_mute_sink") {
            PulseCommand::VolMuteSink
        } else if eq_str(cmd, "vol_unmute_sink") {
            PulseCommand::VolUnmuteSink
        } else if eq_str(cmd, "vol_mute_mic") {
            PulseCommand::VolMuteMic
        } else if eq_str(cmd, "vol_unmute_mic") {
            PulseCommand::VolUnmuteMic
        } else {
            let c = sub_chars(cmd, 0, cmd.len());
            proof {
                assert(c@ =~= cmd@);
            }
            PulseCommand::Unknown(c)
        }
    }

    /// Read the volume out of the audio server's report: the percentage
    /// is the second `/`-separated segment, trimmed, with trailing `%`
    /// stripped. The errors carry the report reader's exact words.
    pub fn parse_sink_volume(out: &[char]) -> (r: Result<u32, Vec<char>>)
        ensures
            match r {
                Ok(v) => sink_volume_spec(out@) == Ok::<u32, Seq<char>>(v),
                Err(e) => sink_volume_spec(out@) == Err::<u32, Seq<char>>(e@),
            },
    {
        match split_at_char(out, '/') {
            None => Err(str_chars("parse error")),
            Some((_, rest)) => {
                let seg = match split_at_char(rest.as_slice(), '/') {
                    Some((seg, _)) => seg,
                    None => rest,
                };
                let trimmed = trim_chars(seg.as_slice());
                let cleaned = strip_pct_chars(trimmed.as_slice());
                match crate::num::parse_u32(cleaned.as_slice()) {
                    Some(v) => Ok(v),
                    None => Err(str_chars("parse int")),
                }
            },
        }
    }
}

/// What the volume parse yields on a mixer report.
pub open spec fn sink_volume_spec(s: Seq<char>) -> Result<u32, Seq<char>> {
    match split_at_char_spec(s, '/') {
        None => Err("parse error"@),
        Some(p) => {
            let seg = match split_at_char_spec(p.1, '/') {
                Some(q) => q.0,
                None => p.1,
            };
            let cleaned = strip_pct_spec(trim_end_spec(trim_start_spec(seg)));
            match crate::num::parse_u32_spec(cleaned) {
                Some(v) => Ok(v),
                None => Err("parse int"@),
            }
        },
    }
}

/// A request service controlling a streaming studio over its socket API.
pub struct ObsService;

/// The studio command a request names.
pub enum ObsCommand {
    RecordState,
    RecordStart,
    RecordStop,
    /// Switch to the named scene (the remaining tokens, space-joined).
    Scene(Vec<char>),
    /// `scene` without a name.
    SceneMissing,
    SetMicMuted(bool),
    SetDesktopMuted(bool),
    Unknown(Vec<char>),
}

/// Mathematical value of an `ObsCommand`.
#[verifier::ext_equal]
pub ghost enum ObsCommandV {
    RecordState,
    RecordStart,
    RecordStop,
    Scene(Seq<char>),
    SceneMissing,
    SetMicMuted(bool),
    SetDesktopMuted(bool),
    Unknown(Seq<char>),
}

impl View for ObsCommand {
    type V = ObsCommandV;

    open spec fn view(&self) -> ObsCommandV {
        match self {
            ObsCommand::RecordState => ObsCommandV::RecordState,
            ObsCommand::RecordStart => ObsCommandV::RecordStart,
            ObsCommand::RecordStop => ObsCommandV::RecordStop,
            ObsCommand::Scene(n) => ObsCommandV::Scene(n@),
            ObsCommand::SceneMissing => ObsCommandV::SceneMissing,
            ObsCommand::SetMicMuted(b) => ObsCommandV::SetMicMuted(*b),
            ObsCommand::SetDesktopMuted(b) => ObsCommandV::SetDesktopMuted(*b),
            ObsCommand::Unknown(c) => ObsCommandV::Unknown(c@),
        }
    }
}

/// The studio command named by a request body: the first whitespace
/// token picks the command; `scene` takes the rest, space-joined, as
/// the scene name.
pub open spec fn obs_command_spec(s: Seq<char>) -> ObsCommandV {
    let ts = tokens_spec(s);
    let cmd = if ts.len() > 0 {
        ts[0]
    } else {
        Seq::empty()
    };
    if cmd == "record_state"@ {
        ObsCommandV::RecordState
    } else if cmd == "record_start"@ {
        ObsCommandV::RecordStart
    } else if cmd == "record_stop"@ {
        ObsCommandV::RecordStop
    } else if cmd == "scene"@ {
        let name = join_spaced_spec(ts.subrange(1, ts.len() as int));
        if name.len() == 0 {
            ObsCommandV::SceneMissing
        } else {
            ObsCommandV::Scene(name)
        }
    } else if cmd == "mic_mute"@ {
        ObsCommandV::SetMicMuted(true)
    } else if cmd == "mic_unmute"@ {
        ObsCommandV::SetMicMuted(false)
    } else if cmd == "desktop_mute"@ {
        ObsCommandV::SetDesktopMuted(true)
    } else if cmd == "desktop_unmute"@ {
        ObsCommandV::SetDesktopMuted(false)
    } else {
        ObsCommandV::Unknown(cmd)
    }
}

impl ObsService {
    /// Which studio command a request names.
    pub fn classify(request: &[char]) -> (r: ObsCommand)
        ensures
            r@ == obs_command_spec(request@),
    {
        let tokens = tokenize(request);
        let empty: Vec<char> = Vec::new();
        let cmd: &[char] = if tokens.len() > 0 {
            tokens[0].as_slice()
        } else {
            empty.as_slice()
        };
        proof {
            if tokens@.len() > 0 {
                assert(cmd@ == tokens_view(tokens@)[0]);
            } else {
                assert(cmd@ =~= Seq::<char>::empty());
            }
        }
        if eq_str(cmd, "record_state") {
            ObsCommand::RecordState
        } else if eq_str(cmd, "record_start") {
            ObsCommand::RecordStart
        } else if eq_str(cmd, "record_stop") {
            ObsCommand::RecordStop
        } else if eq_str(cmd, "scene") {
            proof {
                reveal_strlit("scene");
                assert(tokens@.len() > 0);
            }
            let name = join_spaced(&tokens, 1);
            if name.len() == 0 {
                ObsCommand::SceneMissing
            } else {
                ObsCommand::Scene(name)
            }
        } else if eq_str(cmd, "mic_mute") {
            ObsCommand::SetMicMuted(true)
        } else if eq_str(cmd, "mic_unmute") {
            ObsCommand::SetMicMuted(false)
        } else if eq_str(cmd, "desktop_mute") {
            ObsCommand::SetDesktopMuted(true)
        } else if eq_str(cmd, "desktop_unmute") {
            ObsCommand::SetDesktopMuted(false)
        } else {
            let c = sub_chars(cmd, 0, cmd.len());
            proof {
                assert(c@ =~= cmd@);
            }
            ObsCommand::Unknown(c)
        }
    }
}

/// A request service serving page bundles and files under a page
/// directory.
pub struct PageService {}

/// What a page request asks for.
pub enum PageRequest {
    /// No `/`: load the whole page bundle of this name.
    Load(Vec<char>),
    /// `<page>/<path>?`: ask about the path (existence, or a listing).
    Query { page: Vec<char>, path: Vec<char> },
    /// `<page>/<path>`: fetch the file itself.
    Asset { page: Vec<char>, path: Vec<char> },
}

/// Mathematical value of a `PageRequest`.
#[verifier::ext_equal]
pub ghost enum PageRequestV {
    Load(Seq<char>),
    Query { page: Seq<char>, path: Seq<char> },
    Asset { page: Seq<char>, path: Seq<char> },
}

impl View for PageRequest {
    type V = PageRequestV;

    open spec fn view(&self) -> PageRequestV {
        match self {
            PageRequest::Load(n) => PageRequestV::Load(n@),
            PageRequest::Query { page, path } => PageRequestV::Query {
                page: page@,
                path: path@,
            },
            PageRequest::Asset { page, path } => PageRequestV::Asset {
                page: page@,
                path: path@,
            },
        }
    }
}

/// What a page request body asks for: the part before the first `/`
/// names the page; a trailing `?` turns the rest into a query.
pub open spec fn page_request_spec(s: Seq<char>) -> PageRequestV {
    match split_at_char_spec(s, '/') {
        None => PageRequestV::Load(s),
        Some(p) => {
            if p.1.len() > 0 && p.1.last() == '?' {
                PageRequestV::Query { page: p.0, path: p.1.drop_last() }
            } else {
                PageRequestV::Asset { page: p.0, path: p.1 }
            }
        },
    }
}

impl PageService {
    /// What a request asks for.
    pub fn classify(request: &[char]) -> (r: PageRequest)
        ensures
            r@ == page_request_spec(request@),
    {
        match split_at_char(request, '/') {
            None => {
                let name = sub_chars(request, 0, request.len());
                proof {
                    assert(name@ =~= request@);
                }
                PageRequest::Load(name)
            },
            Some((page, rest)) => {
                let n = rest.len();
                if n > 0 && rest[n - 1] == '?' {
                    let path = sub_chars(rest.as_slice(), 0, n - 1);
                    proof {
                        assert(path@ =~= rest@.drop_last());
                    }
                    PageRequest::Query { page, path }
                } else {
                    PageRequest::Asset { page, path: rest }
                }
            },
        }
    }
}

/// A request service serving raw files from a page's asset directory.
pub struct PageAssetsService;

/// What an asset request asks for.
pub enum AssetRequest {
    /// No `/`: the request is malformed.
    Invalid,
    /// `<page>/<path>`: the file `path` under `page`'s asset directory.
    Asset { page: Vec<char>, path: Vec<char> },
}

/// Mathematical value of an `AssetRequest`.
#[verifier::ext_equal]
pub ghost enum AssetRequestV {
    Invalid,
    Asset { page: Seq<char>, path: Seq<char> },
}

impl View for AssetRequest {
    type V = AssetRequestV;

    open spec fn view(&self) -> AssetRequestV {
        match self {
            AssetRequest::Invalid => AssetRequestV::Invalid,
            AssetRequest::Asset { page, path } => AssetRequestV::Asset {
                page: page@,
                path: path@,
            },
        }
    }
}

/// What an asset request body asks for.
pub open spec fn asset_request_spec(s: Seq<char>) -> AssetRequestV {
    match split_at_char_spec(s, '/') {
        None => AssetRequestV::Invalid,
        Some(p) => AssetRequestV::Asset { page: p.0, path: p.1 },
    }
}

impl PageAssetsService {
    /// What a request asks for.
    pub fn classify(request: &[char]) -> (r: AssetRequest)
        ensures
            r@ == asset_request_spec(request@),
    {
        match split_at_char(request, '/') {
            None => AssetRequest::Invalid,
            Some((page, path)) => AssetRequest::Asset { page, path },
        }
    }
}

/// The directory fragment of a page: `pages/<page>/`.
pub fn page_dir_fragment(page: &[char]) -> (r: Vec<char>)
    ensures
        r@ == "pages/"@ + page@ + "/"@,
{
    let mut r = str_chars("pages/");
    r.extend_from_slice(page);
    r.push('/');
    proof {
        reveal_strlit("/");
        assert(r@ =~= "pages/"@ + page@ + "/"@);
    }
    r
}

/// The path fragment of an asset under a page: `assets/<path>`.
pub fn asset_fragment(path: &[char]) -> (r: Vec<char>)
    ensures
        r@ == "assets/"@ + path@,
{
    let mut r = str_chars("assets/");
    r.extend_from_slice(path);
    proof {
        assert(r@ =~= "assets/"@ + path@);
    }
    r
}

/// The standard base-64 encoding of a byte string.
pub uninterp spec fn base64_of(bytes: Seq<u8>) -> Seq<char>;

/// Relies on base64's `Engine::encode` with the standard padded
/// alphabet: the encoding depends on the input bytes alone, and emits
/// four characters for every three input bytes, rounded up.
#[verifier::external_body]
fn base64_chars(bytes: &[u8]) -> (r: Vec<char>)
    ensures
        r@ == base64_of(bytes@),
        r@.len() == 4 * ((bytes@.len() + 2) / 3),
{
    base64::Engine::encode(&base64::engine::general_purpose::STANDARD, bytes).chars().collect()
}

/// The reply that hands a file's bytes to a client: the base-64 text of
/// the bytes.
pub fn asset_reply(asset: &[u8]) -> (r: Reply)
    ensures
        r matches Reply::Text(t) && t@ == base64_of(asset@) && t@.len() == 4 * ((asset@.len() + 2)
            / 3),
{
    Reply::Text(base64_chars(asset))
}

} // verus!
