//! The audio player device: its commands, events and settings.

use vstd::prelude::*;

verus! {

/// The events an audio player emits.
#[derive(Clone, Copy, Debug, PartialEq, Eq, Structural)]
pub enum Mp3PlayerEvent {
    /// The song starts.
    OnStart,
    /// The song stops.
    OnEnd,
}

impl Mp3PlayerEvent {
    /// The name under which listeners register for the event.
    pub open spec fn spec_name(self) -> Seq<char> {
        match self {
            Mp3PlayerEvent::OnStart => "start"@,
            Mp3PlayerEvent::OnEnd => "end"@,
        }
    }

    /// The name under which listeners register for the event.
    pub fn name(self) -> (name: String)
        ensures
            name@ == self.spec_name(),
    {
        match self {
            Mp3PlayerEvent::OnStart => "start".to_owned(),
            Mp3PlayerEvent::OnEnd => "end".to_owned(),
        }
    }
}

/// What an audio player is told to do.
#[allow(non_camel_case_types)]
#[derive(Clone, Copy, Debug, PartialEq, Eq, Structural)]
pub enum Mp3Command {
    PLAY,
    PAUSE,
    STOP,
}

impl Default for Mp3Command {
    fn default() -> (command: Self)
        ensures
            command == Mp3Command::STOP,
    {
        Mp3Command::STOP
    }
}

impl Mp3Command {
    /// The command that a number stands for: stop below zero, play above, pause at zero.
    pub open spec fn spec_from_code(code: i8) -> Mp3Command {
        if code < 0 {
            Mp3Command::STOP
        } else if code > 0 {
            Mp3Command::PLAY
        } else {
            Mp3Command::PAUSE
        }
    }

    /// The number that a command is stored as.
    pub open spec fn spec_code(self) -> i8 {
        match self {
            Mp3Command::PLAY => 1i8,
            Mp3Command::PAUSE => 0i8,
            Mp3Command::STOP => -1i8,
        }
    }

    /// The command that a number stands for: stop below zero, play above, pause at zero.
    pub fn from_code(code: i8) -> (command: Self)
        ensures
            command == Self::spec_from_code(code),
    {
        if code < 0 {
            Mp3Command::STOP
        } else if code > 0 {
            Mp3Command::PLAY
        } else {
            Mp3Command::PAUSE
        }
    }

    /// The command that an unsigned state stands for: the state is cut down to its
    /// lowest eight bits and read as a signed number.
    pub fn from_unsigned(state: u64) -> (command: Self)
        ensures
            command == Self::spec_from_code(state as i8),
    {
        Self::from_code(#[verifier::truncate] (state as i8))
    }

    /// The command that a signed state stands for: the state is cut down to its lowest
    /// eight bits and read as a signed number.
    pub fn from_signed(state: i64) -> (command: Self)
        ensures
            command == Self::spec_from_code(state as i8),
    {
        Self::from_code(#[verifier::truncate] (state as i8))
    }

    /// The number that a command is stored as.
    pub fn code(self) -> (code: i8)
        ensures
            code == self.spec_code(),
    {
        match self {
            Mp3Command::PLAY => 1,
            Mp3Command::PAUSE => 0,
            Mp3Command::STOP => -1,
        }
    }

    /// A command read back from its stored number is the same command.
    pub proof fn lemma_code_round_trip(self)
        ensures
            Self::spec_from_code(self.spec_code()) == self,
    {
    }
}

/// The settings of an audio player: the file it plays and what it was last told.
#[derive(Clone, Debug, PartialEq)]
pub struct Mp3Player {
    pub path: String,
    pub status: Mp3Command,
}

/// What an [`Mp3Player`] is to the contracts.
pub struct Mp3PlayerView {
    pub path: Seq<char>,
    pub status: Mp3Command,
}

impl View for Mp3Player {
    type V = Mp3PlayerView;

    open spec fn view(&self) -> Mp3PlayerView {
        Mp3PlayerView { path: self.path@, status: self.status }
    }
}

impl Mp3Player {
    /// A player with no file, stopped.
    pub fn new() -> (player: Self)
        ensures
            player@ == (Mp3PlayerView { path: Seq::<char>::empty(), status: Mp3Command::STOP }),
    {
        Mp3Player { path: String::new(), status: Mp3Command::STOP }
    }

    /// The file that the player plays.
    pub fn get_path(&self) -> (path: String)
        ensures
            path@ == self@.path,
    {
        self.path.clone()
    }

    /// Sets the file to play, without touching what is playing.
    pub fn set_path(self, path: String) -> (player: Self)
        ensures
            player@ == (Mp3PlayerView { path: path@, status: self@.status }),
    {
        Mp3Player { path, status: self.status }
    }

    /// Records that the player was paused.
    pub fn pause(&mut self)
        ensures
            final(self)@ == (Mp3PlayerView { status: Mp3Command::PAUSE, ..old(self)@ }),
    {
        self.status = Mp3Command::PAUSE;
    }

    /// Records that the player was stopped.
    pub fn stop(&mut self)
        ensures
            final(self)@ == (Mp3PlayerView { status: Mp3Command::STOP, ..old(self)@ }),
    {
        self.status = Mp3Command::STOP;
    }

    /// Records that the player was started.
    pub fn play(&mut self)
        ensures
            final(self)@ == (Mp3PlayerView { status: Mp3Command::PLAY, ..old(self)@ }),
    {
        self.status = Mp3Command::PLAY;
    }

    /// Puts the player on another file and records that it plays it.
    pub fn change_track(&mut self, path: String)
        ensures
            final(self)@ == (Mp3PlayerView { path: path@, status: Mp3Command::PLAY }),
    {
        self.path = path;
        self.status = Mp3Command::PLAY;
    }

    /// Applies a numeric command to the player.
    pub fn command(&mut self, code: i8)
        ensures
            final(self)@ == (Mp3PlayerView {
                status: Mp3Command::spec_from_code(code),
                ..old(self)@
            }),
    {
        self.status = Mp3Command::from_code(code);
    }

    /// A copy with the same view.
    pub fn duplicate(&self) -> (copy: Self)
        ensures
            copy@ == self@,
    {
        Mp3Player { path: self.path.clone(), status: self.status }
    }
}

/// What a state asks of an audio player.
#[derive(Debug)]
pub enum Mp3Request {
    /// A state that an audio player has no use for.
    Nothing,
    /// A command as an unsigned number.
    Unsigned(u64),
    /// A command as a signed number.
    Signed(i64),
    /// The file to play.
    Path(String),
    /// Settings by name: the file to play, and a state for the status.
    Settings { path: Option<String>, status: Option<Box<Mp3Request>> },
}

/// What is to be done with the audio output after a state was applied.
#[derive(Clone, Copy, Debug, PartialEq, Eq, Structural)]
pub enum Mp3Action {
    /// Nothing.
    Nothing,
    /// Play, or resume, for at most so many milliseconds.
    Play { duration: u64 },
    /// Pause.
    Pause,
    /// Stop and let go of the output.
    Stop,
}

/// What a command does to a player and asks of the audio output.
pub open spec fn commanded(player: Mp3PlayerView, command: Mp3Command) -> (
    Mp3PlayerView,
    Mp3Action,
) {
    (
        Mp3PlayerView { status: command, ..player },
        match command {
            Mp3Command::PLAY => Mp3Action::Play { duration: u64::MAX },
            Mp3Command::PAUSE => Mp3Action::Pause,
            Mp3Command::STOP => Mp3Action::Stop,
        },
    )
}

/// What setting a state does to a player and asks of the audio output: a number is a
/// command, a text is the file to play, settings give the file and then a state for
/// the status, and anything else changes nothing.
pub open spec fn state_set(player: Mp3PlayerView, request: Mp3Request) -> (
    Mp3PlayerView,
    Mp3Action,
)
    decreases request,
{
    match request {
        Mp3Request::Nothing => (player, Mp3Action::Nothing),
        Mp3Request::Unsigned(state) => commanded(player, Mp3Command::spec_from_code(state as i8)),
        Mp3Request::Signed(state) => commanded(player, Mp3Command::spec_from_code(state as i8)),
        Mp3Request::Path(path) => (Mp3PlayerView { path: path@, ..player }, Mp3Action::Nothing),
        Mp3Request::Settings { path, status } => {
            let named = match path {
                Some(path) => Mp3PlayerView { path: path@, ..player },
                None => player,
            };
            match status {
                Some(inner) => state_set(named, *inner),
                None => (named, Mp3Action::Nothing),
            }
        },
    }
}

/// What animating towards a state does to a player and asks of the audio output:
/// settings give the file, which is then played for the duration; any other state is
/// set.
pub open spec fn animated(player: Mp3PlayerView, request: Mp3Request, duration: u64) -> (
    Mp3PlayerView,
    Mp3Action,
) {
    match request {
        Mp3Request::Settings { path, status } => {
            let named = match path {
                Some(path) => Mp3PlayerView { path: path@, ..player },
                None => player,
            };
            (Mp3PlayerView { status: Mp3Command::PLAY, ..named }, Mp3Action::Play { duration })
        },
        _ => state_set(player, request),
    }
}

impl Mp3Player {
    /// Applies a command and says what to do with the audio output.
    pub fn apply(&mut self, command: Mp3Command) -> (action: Mp3Action)
        ensures
            (final(self)@, action) == commanded(old(self)@, command),
    {
        self.status = command;
        match command {
            Mp3Command::PLAY => Mp3Action::Play { duration: u64::MAX },
            Mp3Command::PAUSE => Mp3Action::Pause,
            Mp3Command::STOP => Mp3Action::Stop,
        }
    }

    /// Sets a state and says what to do with the audio output.
    pub fn set_state(&mut self, request: &Mp3Request) -> (action: Mp3Action)
        ensures
            (final(self)@, action) == state_set(old(self)@, *request),
        decreases request,
    {
        match request {
            Mp3Request::Nothing => Mp3Action::Nothing,
            Mp3Request::Unsigned(state) => self.apply(Mp3Command::from_unsigned(*state)),
            Mp3Request::Signed(state) => self.apply(Mp3Command::from_signed(*state)),
            Mp3Request::Path(path) => {
                self.path = path.clone();
                Mp3Action::Nothing
            },
            Mp3Request::Settings { path, status } => {
                match path {
                    Some(path) => {
                        self.path = path.clone();
                    },
                    None => {},
                }
                match status {
                    Some(inner) => self.set_state(inner),
                    None => Mp3Action::Nothing,
                }
            },
        }
    }

    /// Animates the player towards a state over a duration and says what to do with the
    /// audio output.
    pub fn animate(&mut self, request: &Mp3Request, duration: u64) -> (action: Mp3Action)
        ensures
            (final(self)@, action) == animated(old(self)@, *request, duration),
    {
        match request {
            Mp3Request::Settings { path, status } => {
                match path {
                    Some(path) => {
                        self.path = path.clone();
                    },
                    None => {},
                }
                self.status = Mp3Command::PLAY;
                Mp3Action::Play { duration }
            },
            _ => self.set_state(request),
        }
    }
}

} // verus!
