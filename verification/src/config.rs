//! What the user has configured, and what follows from it.

use crate::text::{chars_of, joined};
use vstd::prelude::*;

verus! {

/// Application configuration
#[derive(Debug)]
pub struct ConfigFile {
    /// Which backend to use for compositor I/O
    pub backend: Option<String>,
    /// The unix socket name/path to use for the Wayland wire protocol
    pub socket_path: Option<String>,
}

/// Application configuration, its text as characters.
#[verifier::ext_equal]
pub struct ConfigView {
    pub backend: Option<Seq<char>>,
    pub socket_path: Option<Seq<char>>,
}

/// What some text says, if there is any.
pub open spec fn text_view(s: Option<String>) -> Option<Seq<char>> {
    match s {
        Some(s) => Some(s@),
        None => None,
    }
}

impl View for ConfigFile {
    type V = ConfigView;

    open spec fn view(&self) -> ConfigView {
        ConfigView {
            backend: text_view(self.backend),
            socket_path: text_view(self.socket_path),
        }
    }
}

impl ConfigView {
    /// Nothing configured.
    pub open spec fn nothing() -> Self {
        ConfigView { backend: None, socket_path: None }
    }
}

impl Default for ConfigFile {
    fn default() -> (r: Self)
        ensures
            r@ == ConfigView::nothing(),
    {
        ConfigFile { backend: None, socket_path: None }
    }
}

/// The first of some configurations that there is, or else nothing configured.
pub open spec fn first_found(found: Seq<Option<ConfigFile>>) -> ConfigView
    decreases found.len(),
{
    if found.len() == 0 {
        ConfigView::nothing()
    } else {
        match found[0] {
            Some(config) => config@,
            None => first_found(found.skip(1)),
        }
    }
}

impl ConfigFile {
    /// Settle on a configuration: the first of those that could be read.
    pub fn first_of(found: Vec<Option<ConfigFile>>) -> (r: Self)
        ensures
            r@ == first_found(found@),
    {
        let mut rest = found;
        while rest.len() > 0
            invariant
                first_found(found@) == first_found(rest@),
            decreases rest@.len(),
        {
            let ghost before = rest@;
            let next = rest.remove(0);
            assert(rest@ =~= before.skip(1));
            if let Some(config) = next {
                return config;
            }
        }
        ConfigFile::default()
    }
}

/// Backend choices for compositor I/O
#[derive(Debug, Clone, Copy, PartialEq, Eq, Structural)]
pub enum Backend {
    /// A window on an existing compositor
    Winit,
    /// No display and no input
    Headless,
}

/// The backend a name stands for, if it does for one.
pub open spec fn backend_named(name: Seq<char>) -> Option<Backend> {
    if name == "winit"@ {
        Some(Backend::Winit)
    } else if name == "none"@ {
        Some(Backend::Headless)
    } else {
        None
    }
}

/// The backend to use: the one asked for, else the one configured, else a
/// window.
pub open spec fn backend_chosen(asked: Option<Backend>, configured: Option<Seq<char>>) -> Backend {
    match (asked, configured) {
        (Some(backend), _) => backend,
        (None, Some(name)) => match backend_named(name) {
            Some(backend) => backend,
            None => Backend::Winit,
        },
        (None, None) => Backend::Winit,
    }
}

/// The backend a name stands for, if it does for one.
pub fn backend_from_name(name: &String) -> (r: Option<Backend>)
    ensures
        r == backend_named(name@),
{
    if name.eq(&"winit".to_string()) {
        Some(Backend::Winit)
    } else if name.eq(&"none".to_string()) {
        Some(Backend::Headless)
    } else {
        None
    }
}

/// Settle on a backend.
pub fn choose_backend(asked: Option<Backend>, config: &ConfigFile) -> (r: Backend)
    ensures
        r == backend_chosen(asked, config@.backend),
{
    if let Some(backend) = asked {
        return backend;
    }
    match &config.backend {
        Some(name) => match backend_from_name(name) {
            Some(backend) => backend,
            None => Backend::Winit,
        },
        None => Backend::Winit,
    }
}

/// What the socket is called: what was asked for, else what is configured, else
/// a name of our own.
pub open spec fn socket_named(asked: Option<Seq<char>>, configured: Option<Seq<char>>) -> Seq<char> {
    match (asked, configured) {
        (Some(name), _) => name,
        (None, Some(name)) => name,
        (None, None) => "way-small-0"@,
    }
}

/// Settle on what the socket is called.
pub fn choose_socket_name(asked: Option<String>, config: &ConfigFile) -> (r: String)
    ensures
        r@ == socket_named(text_view(asked), config@.socket_path),
{
    if let Some(name) = asked {
        return name;
    }
    match &config.socket_path {
        Some(name) => name.clone(),
        None => "way-small-0".to_string(),
    }
}

/// A path that says where it is from the root.
pub open spec fn absolute(path: Seq<char>) -> bool {
    path.len() > 0 && path[0] == '/'
}

/// Where the socket is: where its name says, or else in the runtime directory.
/// Without such a directory it is nowhere.
pub open spec fn socket_at(name: Seq<char>, runtime_dir: Option<Seq<char>>) -> Option<Seq<char>> {
    if absolute(name) {
        Some(name)
    } else {
        match runtime_dir {
            Some(dir) => Some(dir + "/"@ + name),
            None => None,
        }
    }
}

/// Work out where the socket is.
pub fn socket_location(name: &String, runtime_dir: Option<String>) -> (r: Option<String>)
    ensures
        text_view(r) == socket_at(name@, text_view(runtime_dir)),
{
    let chars = chars_of(name.as_str());
    if chars.len() > 0 && chars[0] == '/' {
        return Some(name.clone());
    }
    match runtime_dir {
        Some(dir) => Some(joined(dir.as_str(), "/", name.as_str())),
        None => None,
    }
}

} // verus!
