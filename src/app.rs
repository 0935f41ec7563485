//! The application state and the reducer that applies key presses, timer ticks
//! and operation results to it. Every method returns the requests it issues;
//! the caller hands them to the worker.
use vstd::prelude::*;

use crate::event::{task_views, Key, KeyPress, Task, TaskResult, TaskView};
use crate::nmcli::{
    asks_for_password, error_needs_password, ConnectionStatus, Network, SavedNetwork,
};
use crate::text::{chars_of, string_of};

verus! {

/// Which list is shown.
#[derive(Clone, Copy, Debug, PartialEq, Eq, Structural)]
pub enum ListView {
    AvailableNetworks,
    SavedNetworks,
}

/// The dialog over the lists, if any.
#[derive(Clone, Debug, PartialEq, Eq)]
pub enum Modal {
    PasswordInput,
    ConfirmDisconnect,
    /// Confirm deleting the saved profile of this name.
    ConfirmForget(String),
    Message(String),
}

/// The operation in flight, if any.
#[derive(Clone, Copy, Debug, PartialEq, Eq, Structural)]
pub enum BgStatus {
    Idle,
    Scanning,
    Connecting,
    Disconnecting,
    Forgetting,
}

/// Ticks between automatic refreshes.
pub const AUTO_REFRESH_TICKS: u32 = 120;

/// Phases of the activity spinner.
pub const SPINNER_PHASES: usize = 4;

pub struct App {
    pub running: bool,
    pub view: ListView,
    pub modal: Option<Modal>,
    pub bg_status: BgStatus,
    pub networks: Vec<Network>,
    pub saved: Vec<SavedNetwork>,
    pub status: ConnectionStatus,
    pub device: String,
    pub net_index: usize,
    pub saved_index: usize,
    pub password: String,
    pub password_visible: bool,
    pub password_target_ssid: String,
    pub ticks_since_scan: u32,
    pub spinner_frame: usize,
    /// Ticks between automatic refreshes.
    pub refresh_ticks: u32,
}

/// A selection index fits its list: 0 for an empty list, else below its length.
pub open spec fn index_fits(i: usize, len: nat) -> bool {
    if len == 0 {
        i == 0
    } else {
        i < len
    }
}

/// The selection after a list is replaced by one of length `len`.
pub open spec fn clamp_index(i: usize, len: nat) -> usize {
    if len == 0 {
        0
    } else if i >= len {
        (len - 1) as usize
    } else {
        i
    }
}

/// The three requests of a refresh: scan, status, saved list.
pub open spec fn refresh_tasks(device: Seq<char>) -> Seq<TaskView> {
    seq![TaskView::Scan(device), TaskView::RefreshStatus(device), TaskView::RefreshSaved]
}

pub open spec fn is_yes(k: KeyPress) -> bool {
    k.code == Key::Char('y') || k.code == Key::Char('Y')
}

pub open spec fn is_quit_combo(k: KeyPress) -> bool {
    k.ctrl && k.code == Key::Char('c')
}

/// `t` shows a message with this text, and differs from `s` in nothing else.
pub open spec fn shows_message(s: App, t: App, m: Seq<char>) -> bool {
    &&& t.modal is Some
    &&& t.modal->0 is Message
    &&& t.modal->0->Message_0@ == m
    &&& t == (App { modal: t.modal, ..s })
}

pub open spec fn other_view(v: ListView) -> ListView {
    match v {
        ListView::AvailableNetworks => ListView::SavedNetworks,
        ListView::SavedNetworks => ListView::AvailableNetworks,
    }
}

/// Up moves the selection one row up, Down one row down, within the list.
pub open spec fn moved_index(i: usize, len: nat, code: Key) -> usize {
    match code {
        Key::Up | Key::Char('k') => if i > 0 {
            (i - 1) as usize
        } else {
            i
        },
        Key::Down | Key::Char('j') => if len > 0 && i + 1 < len {
            (i + 1) as usize
        } else {
            i
        },
        _ => i,
    }
}

pub open spec fn is_move(code: Key) -> bool {
    code == Key::Up || code == Key::Down || code == Key::Char('k') || code == Key::Char('j')
}

pub open spec fn is_disconnect_key(code: Key) -> bool {
    code == Key::Char('d') || code == Key::Char('D')
}

/// What `d` does in either list: ask to confirm a disconnect when idle and
/// connected; nothing otherwise.
pub open spec fn disconnect_key_step(s: App, t: App, tasks: Seq<TaskView>) -> bool {
    &&& tasks.len() == 0
    &&& if s.bg_status == BgStatus::Idle && s.status.ssid is Some {
        t == (App { modal: Some(Modal::ConfirmDisconnect), ..s })
    } else {
        t == s
    }
}

/// A key in the list of visible networks.
pub open spec fn available_key_step(s: App, k: KeyPress, t: App, tasks: Seq<TaskView>) -> bool {
    if is_move(k.code) {
        t == (App { net_index: moved_index(s.net_index, s.networks@.len(), k.code), ..s })
            && tasks.len() == 0
    } else if k.code == Key::Enter {
        if s.bg_status != BgStatus::Idle || s.net_index >= s.networks@.len() {
            t == s && tasks.len() == 0
        } else if s.networks@[s.net_index as int].in_use {
            shows_message(s, t, "Already connected to this network."@) && tasks.len() == 0
        } else {
            t == (App { bg_status: BgStatus::Connecting, ..s }) && tasks == seq![
                TaskView::Connect(
                    s.networks@[s.net_index as int].ssid@,
                    Some(Seq::<char>::empty()),
                ),
            ]
        }
    } else if is_disconnect_key(k.code) {
        disconnect_key_step(s, t, tasks)
    } else {
        t == s && tasks.len() == 0
    }
}

/// A key in the list of saved profiles.
pub open spec fn saved_key_step(s: App, k: KeyPress, t: App, tasks: Seq<TaskView>) -> bool {
    if is_move(k.code) {
        t == (App { saved_index: moved_index(s.saved_index, s.saved@.len(), k.code), ..s })
            && tasks.len() == 0
    } else if k.code == Key::Enter {
        if s.bg_status != BgStatus::Idle || s.saved_index >= s.saved@.len() {
            t == s && tasks.len() == 0
        } else if s.saved@[s.saved_index as int].active {
            shows_message(s, t, "Already connected to this network."@) && tasks.len() == 0
        } else {
            t == (App { bg_status: BgStatus::Connecting, ..s }) && tasks == seq![
                TaskView::Connect(s.saved@[s.saved_index as int].name@, None),
            ]
        }
    } else if k.code == Key::Char('f') || k.code == Key::Char('F') {
        tasks.len() == 0 && if s.bg_status != BgStatus::Idle || s.saved_index
            >= s.saved@.len() {
            t == s
        } else {
            t == (App {
                modal: Some(Modal::ConfirmForget(s.saved@[s.saved_index as int].name)),
                ..s
            })
        }
    } else if is_disconnect_key(k.code) {
        disconnect_key_step(s, t, tasks)
    } else {
        t == s && tasks.len() == 0
    }
}

/// A key while a dialog is open: only the dialog's own keys act.
pub open spec fn modal_key_step(s: App, m: Modal, k: KeyPress, t: App, tasks: Seq<TaskView>) -> bool {
    match m {
        Modal::PasswordInput => match k.code {
            Key::Esc => t == (App { modal: None, password: t.password, ..s }) && t.password@.len()
                == 0 && tasks.len() == 0,
            Key::Enter => if s.bg_status == BgStatus::Idle {
                t == (App { modal: None, bg_status: BgStatus::Connecting, ..s }) && tasks == seq![
                    TaskView::Connect(s.password_target_ssid@, Some(s.password@)),
                ]
            } else {
                t == s && tasks.len() == 0
            },
            Key::Backspace => t == (App { password: t.password, ..s }) && t.password@ == (if s.password@.len()
                > 0 {
                s.password@.drop_last()
            } else {
                s.password@
            }) && tasks.len() == 0,
            Key::Tab => t == (App { password_visible: !s.password_visible, ..s }) && tasks.len()
                == 0,
            Key::Char(c) => t == (App { password: t.password, ..s }) && t.password@
                == s.password@.push(c) && tasks.len() == 0,
            _ => t == s && tasks.len() == 0,
        },
        Modal::ConfirmDisconnect => if !is_yes(k) {
            t == (App { modal: None, ..s }) && tasks.len() == 0
        } else if s.bg_status == BgStatus::Idle {
            t == (App { modal: None, bg_status: BgStatus::Disconnecting, ..s }) && tasks == seq![
                TaskView::Disconnect(s.device@),
            ]
        } else {
            t == s && tasks.len() == 0
        },
        Modal::ConfirmForget(name) => if !is_yes(k) {
            t == (App { modal: None, ..s }) && tasks.len() == 0
        } else if s.bg_status == BgStatus::Idle {
            t == (App { modal: None, bg_status: BgStatus::Forgetting, ..s }) && tasks == seq![
                TaskView::Forget(name@),
            ]
        } else {
            t == s && tasks.len() == 0
        },
        Modal::Message(_) => t == (App { modal: None, ..s }) && tasks.len() == 0,
    }
}

/// A key with no dialog open: quit, switch lists and refresh first, then the
/// keys of the list shown.
pub open spec fn plain_key_step(s: App, k: KeyPress, t: App, tasks: Seq<TaskView>) -> bool {
    if k.code == Key::Char('q') || k.code == Key::Char('Q') {
        t == (App { running: false, ..s }) && tasks.len() == 0
    } else if k.code == Key::Tab || k.code == Key::BackTab {
        t == (App { view: other_view(s.view), ..s }) && tasks.len() == 0
    } else if k.code == Key::Char('r') || k.code == Key::Char('R') {
        if s.bg_status == BgStatus::Idle {
            t == (App { bg_status: BgStatus::Scanning, ticks_since_scan: 0, ..s }) && tasks
                == refresh_tasks(s.device@)
        } else {
            t == s && tasks.len() == 0
        }
    } else {
        match s.view {
            ListView::AvailableNetworks => available_key_step(s, k, t, tasks),
            ListView::SavedNetworks => saved_key_step(s, k, t, tasks),
        }
    }
}

/// The tick counter after one more tick; it stops at its largest value.
pub open spec fn next_ticks(n: u32) -> u32 {
    if n < u32::MAX {
        (n + 1) as u32
    } else {
        n
    }
}

/// Whether a result ends an operation that set the background status.
pub open spec fn ends_operation(r: TaskResult) -> bool {
    !(r is StatusUpdate || r is SavedUpdate)
}

/// `t` is `s` idle with a message showing this text.
pub open spec fn idle_with_message(s: App, t: App, m: String) -> bool {
    t == (App { bg_status: BgStatus::Idle, modal: Some(Modal::Message(m)), ..s })
}

/// What an operation result does to the state.
pub open spec fn result_step(s: App, r: TaskResult, t: App) -> bool {
    match r {
        TaskResult::ScanComplete(res) => match res {
            Ok(nets) => t == (App {
                networks: nets,
                net_index: clamp_index(s.net_index, nets@.len()),
                bg_status: BgStatus::Idle,
                ..s
            }),
            Err(e) => idle_with_message(s, t, e),
        },
        TaskResult::ConnectComplete(res, name) => match res {
            Ok(m) => t == (App {
                bg_status: BgStatus::Idle,
                modal: Some(Modal::Message(m)),
                ticks_since_scan: s.refresh_ticks,
                ..s
            }),
            Err(e) => if asks_for_password(e@) {
                t == (App {
                    bg_status: BgStatus::Idle,
                    modal: Some(Modal::PasswordInput),
                    password: t.password,
                    password_visible: false,
                    password_target_ssid: name,
                    ..s
                }) && t.password@.len() == 0
            } else {
                idle_with_message(s, t, e)
            },
        },
        TaskResult::DisconnectComplete(res) | TaskResult::ForgetComplete(res) => match res {
            Ok(m) => t == (App {
                bg_status: BgStatus::Idle,
                modal: Some(Modal::Message(m)),
                ticks_since_scan: s.refresh_ticks,
                ..s
            }),
            Err(e) => idle_with_message(s, t, e),
        },
        TaskResult::StatusUpdate(st) => t == (App { status: st, ..s }),
        TaskResult::SavedUpdate(res) => match res {
            Ok(v) => t == (App { saved: v, saved_index: clamp_index(s.saved_index, v@.len()), ..s }),
            Err(_) => t == s,
        },
    }
}

fn copy_modal(m: &Modal) -> (r: Modal)
    ensures
        r == *m,
{
    match m {
        Modal::PasswordInput => Modal::PasswordInput,
        Modal::ConfirmDisconnect => Modal::ConfirmDisconnect,
        Modal::ConfirmForget(n) => Modal::ConfirmForget(n.clone()),
        Modal::Message(t) => Modal::Message(t.clone()),
    }
}

impl App {
    /// The state's invariant: selections fit their lists and the spinner phase
    /// is in range.
    pub open spec fn wf(&self) -> bool {
        &&& index_fits(self.net_index, self.networks@.len())
        &&& index_fits(self.saved_index, self.saved@.len())
        &&& self.spinner_frame < SPINNER_PHASES
    }

    /// The starting state: the available list shown, no dialog, idle, empty
    /// lists, and the tick counter at the refresh interval so that the first
    /// tick refreshes.
    pub open spec fn is_initial(&self, device: String, refresh_ticks: u32) -> bool {
        &&& self.running && self.view == ListView::AvailableNetworks && self.modal is None
        &&& self.bg_status == BgStatus::Idle
        &&& self.networks@.len() == 0 && self.saved@.len() == 0
        &&& self.status.ssid is None && self.status.signal is None
        &&& self.status.ip is None && self.status.speed is None
        &&& self.device == device
        &&& self.net_index == 0 && self.saved_index == 0
        &&& self.password@.len() == 0 && !self.password_visible
        &&& self.password_target_ssid@.len() == 0
        &&& self.ticks_since_scan == refresh_ticks
        &&& self.spinner_frame == 0
        &&& self.refresh_ticks == refresh_ticks
    }

    /// A new state for `device` with the default refresh interval.
    pub fn new(device: String) -> (r: App)
        ensures
            r.is_initial(device, AUTO_REFRESH_TICKS),
            r.wf(),
    {
        App::with_refresh_ticks(device, AUTO_REFRESH_TICKS)
    }

    /// A new state for `device` that refreshes every `refresh_ticks` ticks (on
    /// every tick for 0).
    pub fn with_refresh_ticks(device: String, refresh_ticks: u32) -> (r: App)
        ensures
            r.is_initial(device, refresh_ticks),
            r.wf(),
    {
        App {
            running: true,
            view: ListView::AvailableNetworks,
            modal: None,
            bg_status: BgStatus::Idle,
            networks: Vec::new(),
            saved: Vec::new(),
            status: ConnectionStatus { ssid: None, signal: None, ip: None, speed: None },
            device,
            net_index: 0,
            saved_index: 0,
            password: String::new(),
            password_visible: false,
            password_target_ssid: String::new(),
            ticks_since_scan: refresh_ticks,
            spinner_frame: 0,
            refresh_ticks,
        }
    }
    /// Applies a key press. Control-C quits whatever else holds; an open dialog
    /// takes every other key; otherwise quit, list switch and refresh come
    /// before the keys of the list shown. No request is issued unless idle.
    pub fn handle_key(&mut self, key: KeyPress) -> (tasks: Vec<Task>)
        requires
            old(self).wf(),
        ensures
            final(self).wf(),
            is_quit_combo(key) ==> *final(self) == (App { running: false, ..*old(self) })
                && tasks@.len() == 0,
            !is_quit_combo(key) && old(self).modal is Some ==> modal_key_step(
                *old(self),
                old(self).modal->0,
                key,
                *final(self),
                task_views(tasks@),
            ),
            !is_quit_combo(key) && old(self).modal is None ==> plain_key_step(
                *old(self),
                key,
                *final(self),
                task_views(tasks@),
            ),
            old(self).bg_status != BgStatus::Idle ==> tasks@.len() == 0 && final(self).bg_status
                == old(self).bg_status,
            tasks@.len() > 0 ==> old(self).bg_status == BgStatus::Idle,
    {
        if key.ctrl && key.code == Key::Char('c') {
            self.running = false;
            return Vec::new();
        }
        match &self.modal {
            Some(m) => {
                let m = copy_modal(m);
                return self.handle_modal_key(key, m);
            },
            None => {},
        }
        match key.code {
            Key::Char('q') | Key::Char('Q') => {
                self.running = false;
                Vec::new()
            },
            Key::Tab | Key::BackTab => {
                self.view = match self.view {
                    ListView::AvailableNetworks => ListView::SavedNetworks,
                    ListView::SavedNetworks => ListView::AvailableNetworks,
                };
                Vec::new()
            },
            Key::Char('r') | Key::Char('R') => {
                if self.bg_status == BgStatus::Idle {
                    self.start_scan()
                } else {
                    Vec::new()
                }
            },
            _ => match self.view {
                ListView::AvailableNetworks => self.handle_available_key(key),
                ListView::SavedNetworks => self.handle_saved_key(key),
            },
        }
    }

    fn handle_available_key(&mut self, key: KeyPress) -> (tasks: Vec<Task>)
        requires
            old(self).wf(),
            old(self).modal is None,
        ensures
            final(self).wf(),
            available_key_step(*old(self), key, *final(self), task_views(tasks@)),
    {
        let mut tasks: Vec<Task> = Vec::new();
        match key.code {
            Key::Up | Key::Char('k') => {
                if self.net_index > 0 {
                    self.net_index = self.net_index - 1;
                }
            },
            Key::Down | Key::Char('j') => {
                if self.networks.len() > 0 && self.net_index + 1 < self.networks.len() {
                    self.net_index = self.net_index + 1;
                }
            },
            Key::Enter => {
                if self.bg_status != BgStatus::Idle || self.net_index >= self.networks.len() {
                    return tasks;
                }
                if self.networks[self.net_index].in_use {
                    self.modal = Some(
                        Modal::Message("Already connected to this network.".to_owned()),
                    );
                    return tasks;
                }
                let ssid = self.networks[self.net_index].ssid.clone();
                self.bg_status = BgStatus::Connecting;
                tasks.push(Task::Connect(ssid, Some(String::new())));
                assert(task_views(tasks@) =~= seq![
                    TaskView::Connect(
                        old(self).networks@[old(self).net_index as int].ssid@,
                        Some(Seq::<char>::empty()),
                    ),
                ]);
            },
            Key::Char('d') | Key::Char('D') => {
                if self.bg_status == BgStatus::Idle && self.status.ssid.is_some() {
                    self.modal = Some(Modal::ConfirmDisconnect);
                }
            },
            _ => {},
        }
        tasks
    }

    fn handle_saved_key(&mut self, key: KeyPress) -> (tasks: Vec<Task>)
        requires
            old(self).wf(),
            old(self).modal is None,
        ensures
            final(self).wf(),
            saved_key_step(*old(self), key, *final(self), task_views(tasks@)),
    {
        let mut tasks: Vec<Task> = Vec::new();
        match key.code {
            Key::Up | Key::Char('k') => {
                if self.saved_index > 0 {
                    self.saved_index = self.saved_index - 1;
                }
            },
            Key::Down | Key::Char('j') => {
                if self.saved.len() > 0 && self.saved_index + 1 < self.saved.len() {
                    self.saved_index = self.saved_index + 1;
                }
            },
            Key::Enter => {
                if self.bg_status != BgStatus::Idle || self.saved_index >= self.saved.len() {
                    return tasks;
                }
                if self.saved[self.saved_index].active {
                    self.modal = Some(
                        Modal::Message("Already connected to this network.".to_owned()),
                    );
                    return tasks;
                }
                let name = self.saved[self.saved_index].name.clone();
                self.bg_status = BgStatus::Connecting;
                tasks.push(Task::Connect(name, None));
                assert(task_views(tasks@) =~= seq![
                    TaskView::Connect(old(self).saved@[old(self).saved_index as int].name@, None),
                ]);
            },
            Key::Char('f') | Key::Char('F') => {
                if self.bg_status != BgStatus::Idle || self.saved_index >= self.saved.len() {
                    return tasks;
                }
                let name = self.saved[self.saved_index].name.clone();
                self.modal = Some(Modal::ConfirmForget(name));
            },
            Key::Char('d') | Key::Char('D') => {
                if self.bg_status == BgStatus::Idle && self.status.ssid.is_some() {
                    self.modal = Some(Modal::ConfirmDisconnect);
                }
            },
            _ => {},
        }
        tasks
    }

    fn handle_modal_key(&mut self, key: KeyPress, modal: Modal) -> (tasks: Vec<Task>)
        requires
            old(self).wf(),
            old(self).modal == Some(modal),
        ensures
            final(self).wf(),
            modal_key_step(*old(self), modal, key, *final(self), task_views(tasks@)),
    {
        let mut tasks: Vec<Task> = Vec::new();
        let yes = key.code == Key::Char('y') || key.code == Key::Char('Y');
        match modal {
            Modal::PasswordInput => match key.code {
                Key::Esc => {
                    self.modal = None;
                    self.password = String::new();
                },
                Key::Enter => {
                    if self.bg_status == BgStatus::Idle {
                        let ssid = self.password_target_ssid.clone();
                        let pw = self.password.clone();
                        self.modal = None;
                        self.bg_status = BgStatus::Connecting;
                        tasks.push(Task::Connect(ssid, Some(pw)));
                        assert(task_views(tasks@) =~= seq![
                            TaskView::Connect(
                                old(self).password_target_ssid@,
                                Some(old(self).password@),
                            ),
                        ]);
                    }
                },
                Key::Backspace => {
                    let mut cs = chars_of(self.password.as_str());
                    if cs.len() > 0 {
                        cs.pop();
                    }
                    self.password = string_of(cs.as_slice());
                },
                Key::Tab => {
                    self.password_visible = !self.password_visible;
                },
                Key::Char(c) => {
                    let mut cs = chars_of(self.password.as_str());
                    cs.push(c);
                    self.password = string_of(cs.as_slice());
                },
                _ => {},
            },
            Modal::ConfirmDisconnect => {
                if !yes {
                    self.modal = None;
                } else if self.bg_status == BgStatus::Idle {
                    self.modal = None;
                    self.bg_status = BgStatus::Disconnecting;
                    tasks.push(Task::Disconnect(self.device.clone()));
                    assert(task_views(tasks@) =~= seq![TaskView::Disconnect(old(self).device@)]);
                }
            },
            Modal::ConfirmForget(name) => {
                if !yes {
                    self.modal = None;
                } else if self.bg_status == BgStatus::Idle {
                    let ghost n = name@;
                    self.modal = None;
                    self.bg_status = BgStatus::Forgetting;
                    tasks.push(Task::Forget(name));
                    assert(task_views(tasks@) =~= seq![TaskView::Forget(n)]);
                }
            },
            Modal::Message(_) => {
                self.modal = None;
            },
        }
        tasks
    }

    /// Applies a timer tick: advances the spinner and the tick counter, and
    /// starts a refresh when the counter has reached the interval and nothing
    /// is in flight.
    pub fn handle_tick(&mut self) -> (tasks: Vec<Task>)
        requires
            old(self).wf(),
        ensures
            final(self).wf(),
            ({
                let s = *old(self);
                let spun = App {
                    spinner_frame: ((s.spinner_frame + 1) % SPINNER_PHASES as int) as usize,
                    ..s
                };
                if next_ticks(s.ticks_since_scan) >= s.refresh_ticks && s.bg_status
                    == BgStatus::Idle {
                    *final(self) == (App {
                        bg_status: BgStatus::Scanning,
                        ticks_since_scan: 0,
                        ..spun
                    }) && task_views(tasks@) == refresh_tasks(s.device@)
                } else {
                    *final(self) == (App { ticks_since_scan: next_ticks(s.ticks_since_scan), ..spun })
                        && tasks@.len() == 0
                }
            }),
    {
        self.spinner_frame = (self.spinner_frame + 1) % SPINNER_PHASES;
        if self.ticks_since_scan < u32::MAX {
            self.ticks_since_scan = self.ticks_since_scan + 1;
        }
        if self.ticks_since_scan >= self.refresh_ticks && self.bg_status == BgStatus::Idle {
            self.start_scan()
        } else {
            Vec::new()
        }
    }

    /// Starts a refresh: scan, status and saved list.
    fn start_scan(&mut self) -> (tasks: Vec<Task>)
        ensures
            *final(self) == (App {
                bg_status: BgStatus::Scanning,
                ticks_since_scan: 0,
                ..*old(self)
            }),
            task_views(tasks@) == refresh_tasks(old(self).device@),
    {
        self.bg_status = BgStatus::Scanning;
        self.ticks_since_scan = 0;
        let mut tasks: Vec<Task> = Vec::new();
        tasks.push(Task::Scan(self.device.clone()));
        tasks.push(Task::RefreshStatus(self.device.clone()));
        tasks.push(Task::RefreshSaved);
        assert(task_views(tasks@) =~= refresh_tasks(old(self).device@));
        tasks
    }

    /// Applies an operation result. A result that ends an operation makes the
    /// state idle, whether it succeeded or not; a fresh list replaces the old one
    /// and its selection is kept within it.
    pub fn handle_task_result(&mut self, result: TaskResult)
        requires
            old(self).wf(),
        ensures
            final(self).wf(),
            result_step(*old(self), result, *final(self)),
            ends_operation(result) ==> final(self).bg_status == BgStatus::Idle,
    {
        match result {
            TaskResult::ScanComplete(Ok(networks)) => {
                self.networks = networks;
                if self.networks.len() == 0 {
                    self.net_index = 0;
                } else if self.net_index >= self.networks.len() {
                    self.net_index = self.networks.len() - 1;
                }
                self.bg_status = BgStatus::Idle;
            },
            TaskResult::ScanComplete(Err(e)) => {
                self.bg_status = BgStatus::Idle;
                self.modal = Some(Modal::Message(e));
            },
            TaskResult::ConnectComplete(Ok(msg), _ssid) => {
                self.bg_status = BgStatus::Idle;
                self.modal = Some(Modal::Message(msg));
                self.ticks_since_scan = self.refresh_ticks;
            },
            TaskResult::ConnectComplete(Err(e), ssid) => {
                self.bg_status = BgStatus::Idle;
                if error_needs_password(e.as_str()) {
                    self.password = String::new();
                    self.password_visible = false;
                    self.password_target_ssid = ssid;
                    self.modal = Some(Modal::PasswordInput);
                } else {
                    self.modal = Some(Modal::Message(e));
                }
            },
            TaskResult::DisconnectComplete(Ok(msg)) | TaskResult::ForgetComplete(Ok(msg)) => {
                self.bg_status = BgStatus::Idle;
                self.modal = Some(Modal::Message(msg));
                self.ticks_since_scan = self.refresh_ticks;
            },
            TaskResult::DisconnectComplete(Err(e)) | TaskResult::ForgetComplete(Err(e)) => {
                self.bg_status = BgStatus::Idle;
                self.modal = Some(Modal::Message(e));
            },
            TaskResult::StatusUpdate(status) => {
                self.status = status;
            },
            TaskResult::SavedUpdate(Ok(saved)) => {
                self.saved = saved;
                if self.saved.len() == 0 {
                    self.saved_index = 0;
                } else if self.saved_index >= self.saved.len() {
                    self.saved_index = self.saved.len() - 1;
                }
            },
            TaskResult::SavedUpdate(Err(_)) => {},
        }
    }
}

} // verus!
