//! The commands that reach the application from its command line or from a
//! second instance, and the plain values the desktop host exchanges with it.

use vstd::prelude::*;
use crate::text::{decimal_chars, decimal_digits, str_equal, string_from_chars};

verus! {

pub const PROTOCOL_VERSION: u16 = 15;

pub const ARG_SHOW: &'static str = "--show";

pub const ARG_SILENT: &'static str = "--silent";

pub const ARG_NEW_FENCE: &'static str = "--new-fence";

pub const ARG_NEW_MAPPED_FENCE: &'static str = "--new-mapped-fence";

pub const ARG_TOGGLE_FENCES: &'static str = "--toggle-fences";

pub const ARG_QUIT: &'static str = "--quit";

pub const ARG_MAP_FOLDER: &'static str = "--map-folder";

pub const EXPLORER_COMMAND_CLSID_TEXT: &'static str = "{7C998A5B-2F68-4A76-9C88-7209A70F4CA0}";

pub const EXPLORER_COMMAND_CANONICAL_GUID_TEXT: &'static str = "{06E8DE01-87AE-4DB7-A685-E8E87F5F8F8B}";

/// A request to the running application. The folder of `MapFolder` is the
/// path exactly as it was given.
#[derive(Debug, Clone, PartialEq, Eq)]
pub enum ExternalCommand {
    Show,
    Silent,
    NewStorageBox,
    NewMappedBox,
    ToggleFences,
    Quit,
    MapFolder(String),
}

/// What a command means, with the folder as its characters.
pub enum CommandModel {
    Show,
    Silent,
    NewStorageBox,
    NewMappedBox,
    ToggleFences,
    Quit,
    MapFolder(Seq<char>),
}

impl View for ExternalCommand {
    type V = CommandModel;

    open spec fn view(&self) -> CommandModel {
        match self {
            ExternalCommand::Show => CommandModel::Show,
            ExternalCommand::Silent => CommandModel::Silent,
            ExternalCommand::NewStorageBox => CommandModel::NewStorageBox,
            ExternalCommand::NewMappedBox => CommandModel::NewMappedBox,
            ExternalCommand::ToggleFences => CommandModel::ToggleFences,
            ExternalCommand::Quit => CommandModel::Quit,
            ExternalCommand::MapFolder(path) => CommandModel::MapFolder(path@),
        }
    }
}

/// The command a flag without an argument stands for.
pub open spec fn flag_command(arg: Seq<char>) -> Option<CommandModel> {
    if arg == "--show"@ {
        Some(CommandModel::Show)
    } else if arg == "--silent"@ {
        Some(CommandModel::Silent)
    } else if arg == "--new-fence"@ {
        Some(CommandModel::NewStorageBox)
    } else if arg == "--new-mapped-fence"@ {
        Some(CommandModel::NewMappedBox)
    } else if arg == "--toggle-fences"@ {
        Some(CommandModel::ToggleFences)
    } else if arg == "--quit"@ {
        Some(CommandModel::Quit)
    } else {
        None
    }
}

/// The commands in `args` from position `i` on. Unknown arguments are
/// skipped; `--map-folder` takes the next argument as its folder, whatever
/// it holds, and is dropped when nothing follows.
pub open spec fn commands_from(args: Seq<Seq<char>>, i: int) -> Seq<CommandModel>
    decreases args.len() - i,
{
    if i < 0 || i >= args.len() {
        seq![]
    } else if args[i] == "--map-folder"@ {
        if i + 1 < args.len() {
            seq![CommandModel::MapFolder(args[i + 1])] + commands_from(args, i + 2)
        } else {
            seq![]
        }
    } else {
        match flag_command(args[i]) {
            Some(command) => seq![command] + commands_from(args, i + 1),
            None => commands_from(args, i + 1),
        }
    }
}

pub open spec fn arg_texts(args: Seq<String>) -> Seq<Seq<char>> {
    args.map_values(|a: String| a@)
}

pub open spec fn command_models(commands: Seq<ExternalCommand>) -> Seq<CommandModel> {
    commands.map_values(|c: ExternalCommand| c@)
}

fn flag_command_exec(arg: &str) -> (r: Option<ExternalCommand>)
    ensures
        match flag_command(arg@) {
            Some(m) => r matches Some(c) && c@ == m,
            None => r is None,
        },
{
    proof {
        reveal_strlit("--show");
        reveal_strlit("--silent");
        reveal_strlit("--new-fence");
        reveal_strlit("--new-mapped-fence");
        reveal_strlit("--toggle-fences");
        reveal_strlit("--quit");
    }
    if str_equal(arg, ARG_SHOW) {
        Some(ExternalCommand::Show)
    } else if str_equal(arg, ARG_SILENT) {
        Some(ExternalCommand::Silent)
    } else if str_equal(arg, ARG_NEW_FENCE) {
        Some(ExternalCommand::NewStorageBox)
    } else if str_equal(arg, ARG_NEW_MAPPED_FENCE) {
        Some(ExternalCommand::NewMappedBox)
    } else if str_equal(arg, ARG_TOGGLE_FENCES) {
        Some(ExternalCommand::ToggleFences)
    } else if str_equal(arg, ARG_QUIT) {
        Some(ExternalCommand::Quit)
    } else {
        None
    }
}

/// The commands in the given arguments, in order.
pub fn parse_external_commands(args: &[String]) -> (commands: Vec<ExternalCommand>)
    ensures
        command_models(commands@) == commands_from(arg_texts(args@), 0),
{
    let ghost texts = arg_texts(args@);
    let mut commands: Vec<ExternalCommand> = Vec::new();
    let mut index: usize = 0;
    while index < args.len()
        invariant
            texts == arg_texts(args@),
            index <= args@.len() + 1,
            commands_from(texts, 0) == command_models(commands@) + commands_from(
                texts,
                index as int,
            ),
        decreases args@.len() + 1 - index,
    {
        let arg = args[index].as_str();
        assert(arg@ == texts[index as int]);
        if str_equal(arg, ARG_MAP_FOLDER) {
            proof {
                reveal_strlit("--map-folder");
            }
            if index + 1 < args.len() {
                let path = args[index + 1].clone();
                let ghost before = commands@;
                commands.push(ExternalCommand::MapFolder(path));
                assert(command_models(commands@) =~= command_models(before).push(
                    CommandModel::MapFolder(texts[index + 1]),
                ));
                assert(commands_from(texts, index as int) == seq![
                    CommandModel::MapFolder(texts[index + 1]),
                ] + commands_from(texts, index + 2));
                assert(command_models(before) + commands_from(texts, index as int) =~= command_models(
                    commands@,
                ) + commands_from(texts, index + 2));
                index = index + 2;
            } else {
                assert(commands_from(texts, index as int) =~= seq![]);
                assert(commands_from(texts, index + 1) =~= seq![]);
                index = index + 1;
            }
        } else {
            proof {
                reveal_strlit("--map-folder");
            }
            let ghost before = commands@;
            match flag_command_exec(arg) {
                Some(command) => {
                    commands.push(command);
                    assert(command_models(commands@) =~= command_models(before).push(
                        flag_command(texts[index as int]).unwrap(),
                    ));
                    assert(command_models(before) + commands_from(texts, index as int)
                        =~= command_models(commands@) + commands_from(texts, index + 1));
                },
                None => {},
            }
            index = index + 1;
        }
    }
    assert(commands_from(texts, index as int) =~= seq![]);
    assert(command_models(commands@) + seq![] =~= command_models(commands@));
    commands
}

/// A monitor as the desktop host last saw it: its name, its work area, and
/// its raw and effective DPI.
#[derive(Debug, Clone, PartialEq, Eq)]
pub struct DisplayAnchor {
    pub device_name: String,
    pub work_left: i32,
    pub work_top: i32,
    pub work_width: i32,
    pub work_height: i32,
    pub dpi_x: u32,
    pub dpi_y: u32,
    pub effective_dpi_x: Option<u32>,
    pub effective_dpi_y: Option<u32>,
}

/// How a fence group keeps its place on one axis of a monitor.
#[derive(Debug, Clone, Copy, PartialEq, Eq, Structural)]
pub enum LayoutAnchor {
    Start,
    End,
    Proportional,
}

/// What turns a fence transparent: the pointer leaving it, or the hotkey.
#[derive(Debug, Clone, Copy, PartialEq, Eq, Structural)]
pub enum GhostModeTrigger {
    Automatic,
    Hotkey,
}

impl Default for GhostModeTrigger {
    fn default() -> (t: Self)
        ensures
            t == GhostModeTrigger::Automatic,
    {
        GhostModeTrigger::Automatic
    }
}

/// A request the user makes in the desktop host that the application carries out.
#[derive(Debug, Clone, PartialEq, Eq)]
pub enum HostUserAction {
    CreateStorageBox,
    CreateMappedBox,
    RenameFence { id: String, title: String },
    ToggleFenceCollapsed { id: String },
    ToggleFenceLocked { id: String },
    SetFenceColor { id: String, color: String },
    ResetFenceSize { id: String },
    RemoveFence { id: String },
    QuitApplication,
}

/// The desktop host's answer to the application's greeting, as far as the
/// handshake reads it: `Ready` with the host's protocol version, `Error`
/// with its message, or any other event.
#[derive(Debug, Clone, PartialEq, Eq)]
pub enum HandshakeReply {
    Ready(u16),
    Error(String),
    Other,
}

pub enum ReplyModel {
    Ready(u16),
    Error(Seq<char>),
    Other,
}

impl View for HandshakeReply {
    type V = ReplyModel;

    open spec fn view(&self) -> ReplyModel {
        match self {
            HandshakeReply::Ready(v) => ReplyModel::Ready(*v),
            HandshakeReply::Error(m) => ReplyModel::Error(m@),
            HandshakeReply::Other => ReplyModel::Other,
        }
    }
}

/// How the handshake ended for the application: the host is ready, the host
/// refused with a message, or the host answered with something else.
#[derive(Debug, Clone, PartialEq, Eq)]
pub enum HandshakeOutcome {
    Completed,
    Refused(String),
    Invalid,
}

pub enum OutcomeModel {
    Completed,
    Refused(Seq<char>),
    Invalid,
}

impl View for HandshakeOutcome {
    type V = OutcomeModel;

    open spec fn view(&self) -> OutcomeModel {
        match self {
            HandshakeOutcome::Completed => OutcomeModel::Completed,
            HandshakeOutcome::Refused(m) => OutcomeModel::Refused(m@),
            HandshakeOutcome::Invalid => OutcomeModel::Invalid,
        }
    }
}

/// The message with which the host refuses a greeting of another version.
pub open spec fn protocol_mismatch_message(client_version: u16) -> Seq<char> {
    "Desktop Host 协议不匹配：主程序 "@ + decimal_digits(client_version as nat) + "，Host "@ + decimal_digits(
        PROTOCOL_VERSION as nat,
    )
}

/// The host's answer to a greeting that names `client_version`.
pub open spec fn hello_answer(client_version: u16) -> ReplyModel {
    if client_version == PROTOCOL_VERSION {
        ReplyModel::Ready(PROTOCOL_VERSION)
    } else {
        ReplyModel::Error(protocol_mismatch_message(client_version))
    }
}

/// What the application makes of the host's answer.
pub open spec fn handshake_result(reply: ReplyModel) -> OutcomeModel {
    match reply {
        ReplyModel::Ready(v) => if v == PROTOCOL_VERSION {
            OutcomeModel::Completed
        } else {
            OutcomeModel::Invalid
        },
        ReplyModel::Error(m) => OutcomeModel::Refused(m),
        ReplyModel::Other => OutcomeModel::Invalid,
    }
}

/// The host's side of the handshake: `Ready` with its own protocol version
/// when the greeting names that version, else an error that names both.
pub fn answer_hello(client_version: u16) -> (r: HandshakeReply)
    ensures
        r@ == hello_answer(client_version),
{
    if client_version == PROTOCOL_VERSION {
        HandshakeReply::Ready(PROTOCOL_VERSION)
    } else {
        let mut message = String::from_str("Desktop Host 协议不匹配：主程序 ");
        let client = string_from_chars(&decimal_chars(client_version as u64));
        message.append(client.as_str());
        message.append("，Host ");
        let host = string_from_chars(&decimal_chars(PROTOCOL_VERSION as u64));
        message.append(host.as_str());
        proof {
            reveal_strlit("Desktop Host 协议不匹配：主程序 ");
            reveal_strlit("，Host ");
        }
        HandshakeReply::Error(message)
    }
}

/// The application's side of the handshake: complete on `Ready` with this
/// protocol version, refused with the host's message on `Error`, invalid on
/// anything else.
pub fn handshake_outcome(reply: &HandshakeReply) -> (r: HandshakeOutcome)
    ensures
        r@ == handshake_result(reply@),
{
    match reply {
        HandshakeReply::Ready(v) => if *v == PROTOCOL_VERSION {
            HandshakeOutcome::Completed
        } else {
            HandshakeOutcome::Invalid
        },
        HandshakeReply::Error(m) => HandshakeOutcome::Refused(m.clone()),
        HandshakeReply::Other => HandshakeOutcome::Invalid,
    }
}

/// A host and an application of the same protocol version complete the
/// handshake; a greeting of any other version is refused with the host's
/// message, which names both versions.
pub proof fn law_handshake_completes_on_same_version(client_version: u16)
    ensures
        client_version == PROTOCOL_VERSION ==> handshake_result(hello_answer(client_version)) is Completed,
        client_version != PROTOCOL_VERSION ==> handshake_result(hello_answer(client_version))
            == OutcomeModel::Refused(protocol_mismatch_message(client_version)),
{
}

} // verus!
