//! The notification router and the host import surface.
//!
//! A sandbox signals the host through exactly one imported function; the host
//! then reads one message from the sandbox's output pipe, tags it with the
//! originating plugin's identity, and forwards it unconditionally.  The
//! router turns each decoded notification into the one action the host may
//! take for it — and refuses a system language-server spawn whose path does
//! not reduce to a bare file name.

use crate::chan::channel_send;
use crate::path::{join_path, join_path_spec, resolve_exec_path, system_exec_name_spec};
use crate::PluginId;
use vstd::prelude::*;

verus! {

/// A notification a sandbox sends to the host.
pub enum PluginNotification {
    StartLspServer {
        exec_path: String,
        language_id: String,
        options: Option<serde_json::Value>,
        system_lsp: Option<bool>,
    },
    DownloadFile { url: String, path: String },
    LockFile { path: String },
    MakeFileExecutable { path: String },
}

/// The action the host takes for one notification.  Filesystem side effects
/// are scoped to the originating plugin's own directory.
pub enum RouterAction {
    SpawnLspServer {
        exec_path: String,
        language_id: String,
        options: Option<serde_json::Value>,
    },
    DownloadTo { url: String, dest: String },
    AcquireLock { path: String },
    MakeExecutable { path: String },
    /// Silently refused: no action is taken and nothing is reported back —
    /// the one-way signal has no acknowledgment path.
    Refused,
}

/// Whether a spawn request asks for a system language server.
pub open spec fn wants_system_lsp(system_lsp: Option<bool>) -> bool {
    system_lsp == Some(true)
}

/// Routes one notification from the plugin whose installation directory is
/// `plugin_dir` (`None` when the plugin is unknown).  A system server spawn
/// must reduce to a bare executable name; any other request needs the
/// plugin's own directory to resolve against, and is refused without one.
pub fn route_notification(plugin_dir: Option<&String>, n: PluginNotification) -> (r: RouterAction)
    ensures
        match n {
            PluginNotification::StartLspServer { exec_path, language_id, options, system_lsp } => {
                match r {
                    RouterAction::SpawnLspServer { exec_path: e, language_id: l, options: o } => {
                        &&& l == language_id
                        &&& o == options
                        &&& if wants_system_lsp(system_lsp) {
                            system_exec_name_spec(exec_path@) == Some(e@)
                        } else {
                            plugin_dir is Some && e@ == join_path_spec(plugin_dir->0@, exec_path@)
                        }
                    },
                    RouterAction::Refused => if wants_system_lsp(system_lsp) {
                        system_exec_name_spec(exec_path@) is None
                    } else {
                        plugin_dir is None
                    },
                    _ => false,
                }
            },
            PluginNotification::DownloadFile { url, path } => match r {
                RouterAction::DownloadTo { url: u, dest } => plugin_dir is Some && u == url
                    && dest@ == join_path_spec(plugin_dir->0@, path@),
                RouterAction::Refused => plugin_dir is None,
                _ => false,
            },
            PluginNotification::LockFile { path } => match r {
                RouterAction::AcquireLock { path: p } => plugin_dir is Some && p@ == join_path_spec(
                    plugin_dir->0@,
                    path@,
                ),
                RouterAction::Refused => plugin_dir is None,
                _ => false,
            },
            PluginNotification::MakeFileExecutable { path } => match r {
                RouterAction::MakeExecutable { path: p } => plugin_dir is Some && p@
                    == join_path_spec(plugin_dir->0@, path@),
                RouterAction::Refused => plugin_dir is None,
                _ => false,
            },
        },
{
    match n {
        PluginNotification::StartLspServer { exec_path, language_id, options, system_lsp } => {
            let system = match system_lsp {
                Some(b) => b,
                None => false,
            };
            match resolve_exec_path(system, exec_path.as_str(), plugin_dir) {
                Some(resolved) => RouterAction::SpawnLspServer {
                    exec_path: resolved,
                    language_id,
                    options,
                },
                None => RouterAction::Refused,
            }
        },
        PluginNotification::DownloadFile { url, path } => match plugin_dir {
            Some(dir) => RouterAction::DownloadTo {
                url,
                dest: join_path(dir.as_str(), path.as_str()),
            },
            None => RouterAction::Refused,
        },
        PluginNotification::LockFile { path } => match plugin_dir {
            Some(dir) => RouterAction::AcquireLock {
                path: join_path(dir.as_str(), path.as_str()),
            },
            None => RouterAction::Refused,
        },
        PluginNotification::MakeFileExecutable { path } => match plugin_dir {
            Some(dir) => RouterAction::MakeExecutable {
                path: join_path(dir.as_str(), path.as_str()),
            },
            None => RouterAction::Refused,
        },
    }
}

/// The host import surface bound to one sandbox: the single function a
/// sandbox may call into the host carries no arguments, so the handler knows
/// only which plugin signalled.  Each decoded message is tagged with that
/// identity and forwarded unconditionally to the catalog's inbound queue.
pub struct PluginHandler {
    pub plugin_id: PluginId,
    pub proxy_tx: crossbeam_channel::Sender<(PluginId, PluginNotification)>,
}

impl PluginHandler {
    /// Forwards one decoded notification, tagged with the originating plugin.
    pub fn forward(&self, n: PluginNotification) -> (accepted: bool) {
        channel_send(&self.proxy_tx, (self.plugin_id, n))
    }
}

} // verus!
