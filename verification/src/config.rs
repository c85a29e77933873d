//! The configuration: which button draws shapes, and the bindings.

use crate::binding::Binding;
use crate::event::MouseButton;
use vstd::prelude::*;

verus! {

/// A snapshot of the user's configuration. It is replaced as a whole, never
/// changed in part.
#[derive(Debug)]
pub struct Config {
    /// The button that, while held, draws a shape.
    pub shape_button: MouseButton,
    /// The bindings, in the order in which they are tried.
    pub bindings: Vec<Binding>,
}

impl Config {
    /// Whether `self` is `source` brought into use: the same shape button
    /// and the same bindings in the same order, each with the signatures of
    /// its pattern taken from the traces.
    pub open spec fn is_loaded_from(&self, source: &Config) -> bool {
        &&& self.shape_button == source.shape_button
        &&& self.bindings@.len() == source.bindings@.len()
        &&& forall|i: int|
            0 <= i < source.bindings@.len() ==> (#[trigger] self.bindings@[i]).is_loaded_from(
                &source.bindings@[i],
            )
    }
}

/// Brings a configuration that was read into use: every binding gets the
/// angle signatures of its traces, whatever signatures it came with; nothing
/// else changes.
pub fn get_config(loaded: Config) -> (config: Config)
    ensures
        config.is_loaded_from(&loaded),
{
    let mut config = loaded;
    let mut i: usize = 0;
    while i < config.bindings.len()
        invariant
            i <= config.bindings@.len(),
            config.shape_button == loaded.shape_button,
            config.bindings@.len() == loaded.bindings@.len(),
            forall|k: int|
                0 <= k < i ==> (#[trigger] config.bindings@[k]).is_loaded_from(&loaded.bindings@[k]),
            forall|k: int|
                i <= k < config.bindings@.len() ==> config.bindings@[k] == loaded.bindings@[k],
        decreases config.bindings@.len() - i,
    {
        config.bindings[i].derive_signatures();
        i = i + 1;
    }
    config
}

impl Default for Config {
    /// The configuration a new installation starts with: shapes are drawn
    /// with the right button, and there is no binding.
    fn default() -> (config: Config)
        ensures
            config.shape_button == MouseButton::Right,
            config.bindings@.len() == 0,
    {
        Config { shape_button: MouseButton::Right, bindings: Vec::new() }
    }
}

/// Says what to write where no configuration file exists yet: the default
/// configuration; and nothing where one exists.
pub fn init_config_file_if_not_exists(exists: bool) -> (to_write: Option<Config>)
    ensures
        exists ==> to_write is None,
        !exists ==> (to_write matches Some(config) && config.shape_button == MouseButton::Right
            && config.bindings@.len() == 0),
{
    if exists {
        None
    } else {
        Some(Config::default())
    }
}

/// Seconds the watcher waits after a failure before it watches again.
pub const BACKOFF_SECONDS: u64 = 1;

/// What the watcher of the configuration file hears.
#[derive(Clone, Copy, Debug, PartialEq, Eq, Structural)]
pub enum WatchSignal {
    /// A writer closed the file: a change is complete.
    WriteClosed,
    /// Any other notice about the file, an error notice included.
    Other,
    /// The source of notices is gone.
    Disconnected,
}

/// What the watcher does next.
#[derive(Clone, Copy, Debug, PartialEq, Eq, Structural)]
pub enum WatchAction {
    /// Read the file again and hand the result to `reload_config`.
    Reload,
    /// Go on watching.
    Continue,
    /// Wait for so many seconds, then go on watching.
    Backoff(u64),
}

/// What the watcher does on `signal`.
pub open spec fn action_on(signal: WatchSignal) -> WatchAction {
    match signal {
        WatchSignal::WriteClosed => WatchAction::Reload,
        WatchSignal::Other => WatchAction::Continue,
        WatchSignal::Disconnected => WatchAction::Backoff(BACKOFF_SECONDS),
    }
}

/// Decides what the watcher does on `signal`: a completed write calls for a
/// reload, the loss of the source for a pause, and anything else for
/// nothing.
pub fn watch_config(signal: WatchSignal) -> (action: WatchAction)
    ensures
        action == action_on(signal),
{
    match signal {
        WatchSignal::WriteClosed => WatchAction::Reload,
        WatchSignal::Other => WatchAction::Continue,
        WatchSignal::Disconnected => WatchAction::Backoff(BACKOFF_SECONDS),
    }
}

/// Takes the result of reading the file again. A configuration that was read
/// replaces the current one as a whole, brought into use as `get_config`
/// does. Where the file could not be read or understood (`None`) the current
/// configuration stays exactly as it is, and the watcher pauses before it
/// watches again.
pub fn reload_config(config: &mut Config, loaded: Option<Config>) -> (action: WatchAction)
    ensures
        match loaded {
            Some(read) => (final(config).is_loaded_from(&read) && action == WatchAction::Continue),
            None => (*final(config) == *old(config) && action == WatchAction::Backoff(
                BACKOFF_SECONDS,
            )),
        },
{
    match loaded {
        Some(read) => {
            *config = get_config(read);
            WatchAction::Continue
        },
        None => WatchAction::Backoff(BACKOFF_SECONDS),
    }
}

/// The texts of a path's components.
pub open spec fn component_texts(path: Seq<String>) -> Seq<Seq<char>> {
    Seq::new(path.len(), |i: int| path[i]@)
}

/// Where the configuration file is, as path components: the path given on
/// the command line as it stands, or else `.config/mouse-actions.json` below
/// the home directory; nowhere if neither a path nor a home directory is
/// known.
pub open spec fn config_path_of(
    from_args: Option<Seq<char>>,
    home: Option<Seq<char>>,
) -> Option<Seq<Seq<char>>> {
    match from_args {
        Some(path) => Some(seq![path]),
        None => match home {
            Some(dir) => Some(seq![dir, ".config"@, "mouse-actions.json"@]),
            None => None,
        },
    }
}

/// The view of an optional text.
pub open spec fn text_of(s: Option<String>) -> Option<Seq<char>> {
    match s {
        Some(s) => Some(s@),
        None => None,
    }
}

/// Works out where the configuration file is from the path given on the
/// command line, if any, and the home directory, if known.
pub fn config_path_from(config_path_from_args: &Option<String>, home: Option<String>) -> (path:
    Option<Vec<String>>)
    ensures
        match config_path_of(text_of(*config_path_from_args), text_of(home)) {
            Some(components) => (path matches Some(p) && component_texts(p@) == components),
            None => path is None,
        },
{
    match config_path_from_args {
        Some(given) => {
            let mut p: Vec<String> = Vec::new();
            p.push(given.clone());
            assert(component_texts(p@) =~= seq![given@]);
            Some(p)
        },
        None => match home {
            Some(dir) => {
                let mut p: Vec<String> = Vec::new();
                let ghost dir_text = dir@;
                p.push(dir);
                p.push(".config".to_owned());
                p.push("mouse-actions.json".to_owned());
                assert(component_texts(p@) =~= seq![
                    dir_text,
                    ".config"@,
                    "mouse-actions.json"@,
                ]);
                Some(p)
            },
            None => None,
        },
    }
}

/// The home directory of the user, as `dirs_sys::home_dir` finds it in the
/// environment or the user database; `None` where it finds none or where
/// the directory's name is not valid Unicode. Nothing is claimed of the
/// result: it depends on the machine.
#[verifier::external_body]
fn home_dir() -> (home: Option<String>) {
    match dirs_sys::home_dir() {
        Some(dir) => dir.into_os_string().into_string().ok(),
        None => None,
    }
}

/// Finds the configuration file: the path given on the command line as it
/// stands, or else the default place below the user's home directory. The
/// home directory is looked up only where no path is given; where it is then
/// not known, there is no path.
pub fn get_config_path(config_path_from_args: &Option<String>) -> (path: Option<Vec<String>>)
    ensures
        config_path_from_args matches Some(given) ==> (path matches Some(p) && component_texts(
            p@,
        ) == seq![given@]),
        config_path_from_args is None ==> (path matches Some(p) ==> (p@.len() == 3
            && component_texts(p@) == seq![p@[0]@, ".config"@, "mouse-actions.json"@])),
{
    match config_path_from_args {
        Some(_) => config_path_from(config_path_from_args, None),
        None => {
            let home = home_dir();
            let path = config_path_from(config_path_from_args, home);
            proof {
                if path is Some {
                    let p = path->0;
                    assert(component_texts(p@).len() == 3);
                    assert(component_texts(p@)[0] == p@[0]@);
                }
            }
            path
        },
    }
}

} // verus!
