//! The typed commands of the dispatcher. Each command is a short run of
//! calls: the set-methods are confirmed by a status query, and skipping the
//! first-time setup polls its status until the headset reports it done.
use vstd::prelude::*;
use crate::error::QuestError;
use crate::messages::{
    copy_bytes, flag_message, nux_finished, read_nux_finished, read_status_flag,
    single_flag_message, skip_nux_fields, skip_nux_request, status_flag, Method,
};
use crate::wire::{message_bytes, message_parse, parse_message};

verus! {

/// Time budget of the skip-NUX status polling, in milliseconds.
pub const NUX_BUDGET_MS: u64 = 60_000;

/// A typed command.
#[derive(Debug, Clone, PartialEq, Eq)]
pub enum Command {
    /// Query the headset's status.
    HmdStatus,
    /// Turn developer mode on or off, then read it back.
    SetDevMode(bool),
    /// Turn OTA updates on or off, then read the setting back.
    SetOtaMode(bool),
    /// Turn ADB on or off; the reply carries the new setting.
    SetAdbMode(bool),
    /// Skip the first-time setup, after staging the given encoded
    /// MetaSetAccessTokenCombined request.
    SkipNux(Vec<u8>),
}

/// What a finished command gives.
#[derive(Debug, Clone, PartialEq, Eq)]
pub enum CommandOutcome {
    /// The body of the status reply, a well-formed message.
    Status(Vec<u8>),
    /// The setting that the headset reports after the change.
    Flag(bool),
    /// The first-time setup was skipped.
    NuxSkipped,
}

/// The index of a command's last stage.
pub open spec fn last_stage(c: Command) -> int {
    match c {
        Command::HmdStatus => 0,
        Command::SetDevMode(_) => 1,
        Command::SetOtaMode(_) => 1,
        Command::SetAdbMode(_) => 0,
        Command::SkipNux(_) => 2,
    }
}

/// The call that stage `stage` of a command makes: its method and body.
pub open spec fn stage_call(c: Command, stage: int) -> (Method, Option<Seq<u8>>) {
    match c {
        Command::HmdStatus => (Method::HmdStatus, None),
        Command::SetDevMode(on) => if stage == 0 {
            (Method::DevModeSet, Some(single_flag_message(on)))
        } else {
            (Method::DevModeStatus, None)
        },
        Command::SetOtaMode(on) => if stage == 0 {
            (Method::OtaEnabledSet, Some(single_flag_message(on)))
        } else {
            (Method::OtaEnabledStatus, None)
        },
        Command::SetAdbMode(on) => (Method::AdbModeSet, Some(single_flag_message(on))),
        Command::SkipNux(token) => if stage == 0 {
            (Method::MetaSetAccessTokenCombined, Some(token@))
        } else if stage == 1 {
            (Method::RetailSkipFirstTimeNux, Some(message_bytes(skip_nux_fields(false))))
        } else {
            (Method::RetailSkipFirstTimeNux, Some(message_bytes(skip_nux_fields(true))))
        },
    }
}

/// A command in progress: the command and the stage whose call is due.
pub struct CommandRun {
    command: Command,
    stage: u8,
}

impl CommandRun {
    /// The command being run.
    pub closed spec fn command(&self) -> Command {
        self.command
    }

    /// The stage whose call is due.
    pub closed spec fn stage(&self) -> int {
        self.stage as int
    }

    /// The stage stays within the command's stages.
    pub open spec fn wf(&self) -> bool {
        0 <= self.stage() <= last_stage(self.command())
    }

    /// Starts a command at its first stage.
    pub fn start(command: Command) -> (r: CommandRun)
        ensures
            r.wf(),
            r.command() == command,
            r.stage() == 0,
    {
        CommandRun { command, stage: 0 }
    }

    /// The call that is due: its method and body.
    pub fn call(&self) -> (r: (Method, Option<Vec<u8>>))
        requires
            self.wf(),
        ensures
            r.0 == stage_call(self.command(), self.stage()).0,
            match r.1 {
                Some(b) => stage_call(self.command(), self.stage()).1 == Some(b@),
                None => stage_call(self.command(), self.stage()).1 is None,
            },
    {
        match &self.command {
            Command::HmdStatus => (Method::HmdStatus, None),
            Command::SetDevMode(on) => if self.stage == 0 {
                (Method::DevModeSet, Some(flag_message(*on)))
            } else {
                (Method::DevModeStatus, None)
            },
            Command::SetOtaMode(on) => if self.stage == 0 {
                (Method::OtaEnabledSet, Some(flag_message(*on)))
            } else {
                (Method::OtaEnabledStatus, None)
            },
            Command::SetAdbMode(on) => (Method::AdbModeSet, Some(flag_message(*on))),
            Command::SkipNux(token) => if self.stage == 0 {
                (Method::MetaSetAccessTokenCombined, Some(copy_bytes(token)))
            } else if self.stage == 1 {
                (Method::RetailSkipFirstTimeNux, Some(skip_nux_request(false)))
            } else {
                (Method::RetailSkipFirstTimeNux, Some(skip_nux_request(true)))
            },
        }
    }

    /// Takes the reply body of the call that was due, `elapsed_ms` after the
    /// command started. Returns `Ok(None)` where another call is due (see
    /// `call`), or the outcome once the command is finished.
    ///
    /// Before the last stage the reply is an acknowledgement and the next
    /// stage follows. At the last stage the reply must carry a body that
    /// decodes: the status, the confirmed setting, or the skip-NUX status,
    /// which is polled again until it reads 0 or the budget runs out.
    pub fn on_reply(&mut self, body: Option<Vec<u8>>, elapsed_ms: u64) -> (r: Result<
        Option<CommandOutcome>,
        QuestError,
    >)
        requires
            old(self).wf(),
        ensures
            final(self).wf(),
            final(self).command() == old(self).command(),
            old(self).stage() < last_stage(old(self).command()) ==> r == Ok::<
                Option<CommandOutcome>,
                QuestError,
            >(None) && final(self).stage() == old(self).stage() + 1,
            old(self).stage() == last_stage(old(self).command()) ==> {
                &&& final(self).stage() == old(self).stage()
                &&& match body {
                    None => r == Err::<Option<CommandOutcome>, QuestError>(
                        QuestError::ProtocolError,
                    ),
                    Some(b) => match old(self).command() {
                        Command::HmdStatus => if message_parse(b@) is None {
                            r == Err::<Option<CommandOutcome>, QuestError>(
                                QuestError::ProtocolError,
                            )
                        } else {
                            r matches Ok(Some(CommandOutcome::Status(s))) && s@ == b@
                        },
                        Command::SkipNux(_) => match nux_finished(b@) {
                            None => r == Err::<Option<CommandOutcome>, QuestError>(
                                QuestError::ProtocolError,
                            ),
                            Some(true) => r == Ok::<Option<CommandOutcome>, QuestError>(
                                Some(CommandOutcome::NuxSkipped),
                            ),
                            Some(false) => if elapsed_ms > NUX_BUDGET_MS {
                                r == Err::<Option<CommandOutcome>, QuestError>(
                                    QuestError::Timeout,
                                )
                            } else {
                                r == Ok::<Option<CommandOutcome>, QuestError>(None)
                            },
                        },
                        _ => match status_flag(b@) {
                            None => r == Err::<Option<CommandOutcome>, QuestError>(
                                QuestError::ProtocolError,
                            ),
                            Some(f) => r == Ok::<Option<CommandOutcome>, QuestError>(
                                Some(CommandOutcome::Flag(f)),
                            ),
                        },
                    },
                }
            },
    {
        let last: u8 = match &self.command {
            Command::HmdStatus => 0,
            Command::SetDevMode(_) => 1,
            Command::SetOtaMode(_) => 1,
            Command::SetAdbMode(_) => 0,
            Command::SkipNux(_) => 2,
        };
        if self.stage < last {
            self.stage = self.stage + 1;
            return Ok(None);
        }
        let b = match body {
            Some(b) => b,
            None => return Err(QuestError::ProtocolError),
        };
        match &self.command {
            Command::HmdStatus => match parse_message(b.as_slice()) {
                None => Err(QuestError::ProtocolError),
                Some(_) => Ok(Some(CommandOutcome::Status(b))),
            },
            Command::SkipNux(_) => match read_nux_finished(b.as_slice()) {
                None => Err(QuestError::ProtocolError),
                Some(true) => Ok(Some(CommandOutcome::NuxSkipped)),
                Some(false) => if elapsed_ms > NUX_BUDGET_MS {
                    Err(QuestError::Timeout)
                } else {
                    Ok(None)
                },
            },
            _ => match read_status_flag(b.as_slice()) {
                None => Err(QuestError::ProtocolError),
                Some(f) => Ok(Some(CommandOutcome::Flag(f))),
            },
        }
    }
}

} // verus!
