//! The windows over the tabs: the settings, the connection form, the serial
//! picker and the toolbox.

use crate::app::{Action, ActionModel, App, AppModel, Form, FormModel, ProfileKind, Windows};
use crate::config::connections::stored;
use crate::config::profile::{
    default_remote, forward_models, profile_error, serial_error, text_copy, Forward, ForwardModel,
    RemoteModel, RemoteProfile, SerialModel, SerialProfile, DEFAULT_BAUD,
};
use crate::config::settings::SettingsModel;
use crate::session::{KindModel, SessionKind};
use crate::text::{blank, chars_of, decimal, is_blank, push_decimal};
use crate::workspace::panes::ssh_target;
use vstd::prelude::*;

verus! {

/// Whether pressing Enter submits a window: not while a popup takes it, and not
/// while a text is being composed.
pub fn enter_submits(pressed: bool, popup_open: bool, composing: bool) -> (yes: bool)
    ensures
        yes == (pressed && !popup_open && !composing),
{
    pressed && !popup_open && !composing
}

impl AppModel {
    /// The terminal once the SSH connection in the form was kept and the form
    /// closed, or the reason why not is shown. What is open is saved along with
    /// the connection.
    pub open spec fn remote_kept(self) -> AppModel {
        let s = self.settings;
        match profile_error(self.form.remote) {
            None => (AppModel {
                settings: SettingsModel {
                    profiles: stored(s.profiles, self.form.remote, self.form.editing_profile),
                    ..s
                },
                form: FormModel { open: false, ..self.form },
                ..self
            }).kept(),
            Some(e) => AppModel { error: Some(e.text()), ..self },
        }
    }

    /// The terminal once the serial connection in the form was kept and the form
    /// closed, or the reason why not is shown. What is open is saved along with
    /// the connection.
    pub open spec fn serial_kept(self, example: Seq<char>) -> AppModel {
        let s = self.settings;
        match serial_error(self.form.serial) {
            None => (AppModel {
                settings: SettingsModel {
                    serial_profiles: stored(
                        s.serial_profiles,
                        self.form.serial,
                        self.form.editing_serial,
                    ),
                    ..s
                },
                form: FormModel { open: false, ..self.form },
                ..self
            }).kept(),
            Some(e) => AppModel { error: Some(e.text(example)), ..self },
        }
    }

    /// What saving the connection form comes to.
    pub open spec fn form_saved(self, example: Seq<char>) -> AppModel {
        match self.form.kind {
            ProfileKind::Ssh => self.remote_kept(),
            ProfileKind::Serial => self.serial_kept(example),
        }
    }

    /// Whether the connection form holds a connection that can be kept.
    pub open spec fn form_usable(self) -> bool {
        match self.form.kind {
            ProfileKind::Ssh => profile_error(self.form.remote) is None,
            ProfileKind::Serial => serial_error(self.form.serial) is None,
        }
    }

    /// Whether the connection that the form edits is still among the saved ones,
    /// where the form is about to be kept in its place.
    pub open spec fn form_fits(self) -> bool {
        self.form_usable() ==> match self.form.kind {
            ProfileKind::Ssh => self.form.editing_profile matches Some(i) ==> i
                < self.settings.profiles.len(),
            ProfileKind::Serial => self.form.editing_serial matches Some(i) ==> i
                < self.settings.serial_profiles.len(),
        }
    }

    /// What the connection in the form runs.
    pub open spec fn form_session(self) -> KindModel {
        match self.form.kind {
            ProfileKind::Ssh => KindModel::Ssh(self.form.remote),
            ProfileKind::Serial => KindModel::Serial(self.form.serial),
        }
    }
}

/// What saving the connection form came to.
#[derive(Debug)]
pub struct Saved {
    /// The connection is kept, and the settings have to be saved.
    pub kept: bool,
    /// The connection is to be made right away.
    pub connect: Option<Action>,
}

impl App {
    /// Saves what the connection form holds, and connects to it where that is
    /// asked for. `example` is a device name of the platform.
    pub fn save_form(&mut self, connect: bool, example: &str) -> (out: Saved)
        requires
            old(self)@.form_fits(),
        ensures
            final(self)@ == old(self)@.form_saved(example@),
            out.kept == old(self)@.form_usable(),
            crate::app::shortcuts::action_model(out.connect) == (if out.kept && connect {
                Some(ActionModel::New(old(self)@.form_session()))
            } else {
                None
            }),
    {
        match self.form.kind {
            ProfileKind::Ssh => {
                if !self.keep_remote() {
                    return Saved { kept: false, connect: None };
                }
                let action: Option<Action> = if connect {
                    Some(Action::New(SessionKind::Ssh(self.form.remote.duplicate())))
                } else {
                    None
                };
                Saved { kept: true, connect: action }
            },
            ProfileKind::Serial => {
                if !self.keep_serial(example) {
                    return Saved { kept: false, connect: None };
                }
                let action: Option<Action> = if connect {
                    Some(Action::New(SessionKind::Serial(self.form.serial.duplicate())))
                } else {
                    None
                };
                Saved { kept: true, connect: action }
            },
        }
    }

    /// Keeps the SSH connection in the form. Says whether it could be kept.
    fn keep_remote(&mut self) -> (kept: bool)
        requires
            old(self)@.form.kind == ProfileKind::Ssh,
            old(self)@.form_fits(),
        ensures
            final(self)@ == old(self)@.remote_kept(),
            kept == (profile_error(old(self)@.form.remote) is None),
    {
        let ghost before = self@;
        match self.settings.store_profile(&self.form.remote, self.form.editing_profile) {
            Ok(()) => {
                self.form.open = false;
                assert(self.form@ =~= FormModel { open: false, ..before.form });
                self.keep_tabs();
                assert(self@ =~= before.remote_kept());
                true
            },
            Err(e) => {
                self.error = Some(e.message());
                assert(self@ =~= before.remote_kept());
                false
            },
        }
    }

    /// Keeps the serial connection in the form. Says whether it could be kept.
    fn keep_serial(&mut self, example: &str) -> (kept: bool)
        requires
            old(self)@.form.kind == ProfileKind::Serial,
            old(self)@.form_fits(),
        ensures
            final(self)@ == old(self)@.serial_kept(example@),
            kept == (serial_error(old(self)@.form.serial) is None),
    {
        let ghost before = self@;
        match self.settings.store_serial(&self.form.serial, self.form.editing_serial) {
            Ok(()) => {
                self.form.open = false;
                assert(self.form@ =~= FormModel { open: false, ..before.form });
                self.keep_tabs();
                assert(self@ =~= before.serial_kept(example@));
                true
            },
            Err(e) => {
                self.error = Some(e.message(example));
                assert(self@ =~= before.serial_kept(example@));
                false
            },
        }
    }

    /// Takes over a change of the auto-hide setting. Turning it on starts with
    /// the navigation bar hidden; turning it off leaves it docked.
    pub fn auto_hide_changed(&mut self)
        ensures
            final(self)@ == (AppModel {
                sidebar_pinned: !old(self)@.settings.auto_hide_sidebar,
                ..old(self)@
            }),
    {
        self.sidebar_pinned = !self.settings.auto_hide_sidebar;
        assert(self@ =~= AppModel {
            sidebar_pinned: !old(self)@.settings.auto_hide_sidebar,
            ..old(self)@
        });
    }

    /// Where the toolbox would type its script, resolved right before it runs.
    /// Where the session is gone the toolbox closes and says so.
    pub fn toolbox_target(&mut self) -> (out: Option<String>)
        requires
            old(self)@.well_formed(),
        ensures
            match out {
                Some(text) => old(self)@.workspace.current() is Some && (ssh_target(
                    old(self)@.workspace.current()->0,
                ) matches Some((_, address)) && address == text@) && final(self)@ == old(self)@,
                None => (old(self)@.workspace.current() is None || ssh_target(
                    old(self)@.workspace.current()->0,
                ) is None) && final(self)@ == (AppModel {
                    error: Some("会话已断开，服务器工具箱不可用"@),
                    windows: Windows { toolbox: false, ..old(self)@.windows },
                    ..old(self)@
                }),
            },
    {
        match self.workspace.focused_ssh() {
            Some((_, text)) => Some(text),
            None => {
                self.error = Some(text_copy("会话已断开，服务器工具箱不可用"));
                self.windows.toolbox = false;
                assert(self@ =~= AppModel {
                    error: Some("会话已断开，服务器工具箱不可用"@),
                    windows: Windows { toolbox: false, ..old(self)@.windows },
                    ..old(self)@
                });
                None
            },
        }
    }

    /// Takes over how typing the script of the toolbox into the session went; it
    /// was not typed where no session was there. The toolbox closes either way.
    pub fn script_sent(&mut self, script: &str, sent: Option<Result<(), String>>)
        ensures
            final(self)@ == (AppModel {
                notice: match sent {
                    Some(Ok(_)) => Some(
                        "已发送服务器初始化脚本（"@ + decimal(script@.len()) + " 字符）"@,
                    ),
                    _ => old(self)@.notice,
                },
                error: match sent {
                    Some(Err(e)) => Some(e@),
                    _ => old(self)@.error,
                },
                windows: Windows { toolbox: false, ..old(self)@.windows },
                ..old(self)@
            }),
    {
        let ghost before = self@;
        match sent {
            Some(Ok(_)) => {
                let count: usize = chars_of(script).len();
                let mut text = text_copy("已发送服务器初始化脚本（");
                push_decimal(&mut text, count as u64);
                text.append(" 字符）");
                assert(text@ =~= "已发送服务器初始化脚本（"@ + decimal(script@.len())
                    + " 字符）"@);
                self.notice = Some(text);
            },
            Some(Err(e)) => {
                self.error = Some(e);
            },
            None => {},
        }
        self.windows.toolbox = false;
        assert(self@ =~= AppModel {
            notice: self@.notice,
            error: self@.error,
            windows: Windows { toolbox: false, ..before.windows },
            ..before
        });
    }

    /// Shows what went wrong.
    pub fn report_error(&mut self, text: &str)
        ensures
            final(self)@ == (AppModel { error: Some(text@), ..old(self)@ }),
    {
        self.error = Some(text_copy(text));
        assert(self@ =~= AppModel { error: Some(text@), ..old(self)@ });
    }

    /// Shows a short message.
    pub fn notify(&mut self, text: &str)
        ensures
            final(self)@ == (AppModel { notice: Some(text@), ..old(self)@ }),
    {
        self.notice = Some(text_copy(text));
        assert(self@ =~= AppModel { notice: Some(text@), ..old(self)@ });
    }
}

impl Form {
    /// Turns the jump host on, with nothing in it yet, or off.
    pub fn set_jump(&mut self, enabled: bool)
        ensures
            final(self)@ == (FormModel {
                remote: RemoteModel {
                    jump: if enabled {
                        Some(Box::new(default_remote()))
                    } else {
                        None
                    },
                    ..old(self)@.remote
                },
                ..old(self)@
            }),
    {
        let ghost was = self.remote@;
        self.remote.jump = if enabled {
            Some(Box::new(RemoteProfile::default()))
        } else {
            None
        };
        proof {
            if enabled {
                assert(self.remote.model().jump == Some(Box::new(default_remote())));
            }
            assert(self.remote@ =~= RemoteModel { jump: self.remote@.jump, ..was });
            assert(self@ =~= FormModel { remote: self.remote@, ..old(self)@ });
        }
    }

    /// Adds a forward, from local port 8080 to port 80 of the host itself.
    pub fn add_forward(&mut self)
        ensures
            final(self)@ == (FormModel {
                remote: RemoteModel {
                    forwards: old(self)@.remote.forwards.push(
                        ForwardModel {
                            bind_port: 8080,
                            target_host: "127.0.0.1"@,
                            target_port: 80,
                        },
                    ),
                    ..old(self)@.remote
                },
                ..old(self)@
            }),
    {
        let ghost was = self.remote@;
        let ghost list = self.remote.forwards@;
        let f = Forward { bind_port: 8080, target_host: text_copy("127.0.0.1"), target_port: 80 };
        self.remote.forwards.push(f);
        proof {
            assert(forward_models(self.remote.forwards@) =~= forward_models(list).push(f@));
            assert(self.remote@ =~= RemoteModel { forwards: was.forwards.push(f@), ..was });
            assert(self@ =~= FormModel { remote: self.remote@, ..old(self)@ });
        }
    }

    /// Removes a forward.
    pub fn remove_forward(&mut self, i: usize)
        requires
            i < old(self).remote.forwards@.len(),
        ensures
            final(self)@ == (FormModel {
                remote: RemoteModel {
                    forwards: old(self)@.remote.forwards.remove(i as int),
                    ..old(self)@.remote
                },
                ..old(self)@
            }),
    {
        let ghost was = self.remote@;
        let ghost list = self.remote.forwards@;
        self.remote.forwards.remove(i);
        proof {
            assert(forward_models(self.remote.forwards@) =~= forward_models(list).remove(i as int));
            assert(self.remote@ =~= RemoteModel {
                forwards: was.forwards.remove(i as int),
                ..was
            });
            assert(self@ =~= FormModel { remote: self.remote@, ..old(self)@ });
        }
    }
}

/// A serial port of the machine.
#[derive(Debug)]
pub struct SerialPortInfo {
    pub name: String,
    pub bluetooth: bool,
}

/// The serial picker.
#[derive(Debug)]
pub struct SerialPicker {
    pub ports: Vec<SerialPortInfo>,
    pub port: String,
    pub baud: u32,
}

/// The port that is offered first: the first of the machine, or the choice at
/// connect time where there is none.
pub open spec fn first_port(ports: Seq<SerialPortInfo>) -> Seq<char> {
    if ports.len() > 0 {
        ports[0].name@
    } else {
        "auto"@
    }
}

/// The port that is offered first.
fn offered_port(ports: &Vec<SerialPortInfo>) -> (out: String)
    ensures
        out@ == first_port(ports@),
{
    if ports.len() > 0 {
        ports[0].name.clone()
    } else {
        text_copy("auto")
    }
}

impl SerialPicker {
    /// The picker for the ports of the machine.
    pub fn new(ports: Vec<SerialPortInfo>) -> (out: SerialPicker)
        ensures
            out.ports == ports,
            out.port@ == first_port(ports@),
            out.baud == DEFAULT_BAUD,
    {
        let port: String = offered_port(&ports);
        SerialPicker { ports, port, baud: DEFAULT_BAUD }
    }

    /// Takes over a new list of ports. What was typed stays; only an empty field
    /// is filled in.
    pub fn refresh(&mut self, ports: Vec<SerialPortInfo>)
        ensures
            final(self).ports == ports,
            final(self).baud == old(self).baud,
            final(self).port@ == (if blank(old(self).port@) {
                first_port(ports@)
            } else {
                old(self).port@
            }),
    {
        if is_blank(chars_of(self.port.as_str()).as_slice()) {
            self.port = offered_port(&ports);
        }
        self.ports = ports;
    }

    /// The connection that the picker stands for: a one-off, named after its
    /// port.
    pub fn connection(&self) -> (out: SerialProfile)
        ensures
            out@ == (SerialModel {
                name: self.port@,
                port: self.port@,
                baud: self.baud,
                group: Seq::empty(),
                color: Seq::empty(),
            }),
    {
        let out = SerialProfile {
            name: self.port.clone(),
            port: self.port.clone(),
            baud: self.baud,
            group: String::new(),
            color: String::new(),
        };
        assert(out@ =~= SerialModel {
            name: self.port@,
            port: self.port@,
            baud: self.baud,
            group: Seq::empty(),
            color: Seq::empty(),
        });
        out
    }
}

/// How a port is offered.
pub fn port_label(port: &SerialPortInfo) -> (out: String)
    ensures
        out@ == (if port.bluetooth {
            port.name@ + "（蓝牙）"@
        } else {
            port.name@
        }),
{
    let mut out: String = port.name.clone();
    if port.bluetooth {
        out.append("（蓝牙）");
    }
    out
}

/// The port that the owner prompt opens with: whatever the picker has selected,
/// else the first port of the machine, else nothing to guess from.
pub fn port_owner_default(picker: &Option<SerialPicker>, ports: &Vec<SerialPortInfo>) -> (out:
    String)
    ensures
        out@ == (match picker {
            Some(p) => p.port@,
            None => if ports@.len() > 0 {
                ports@[0].name@
            } else {
                Seq::empty()
            },
        }),
{
    match picker {
        Some(p) => p.port.clone(),
        None => {
            if ports.len() > 0 {
                ports[0].name.clone()
            } else {
                let out = String::new();
                assert(out@ =~= Seq::<char>::empty());
                out
            }
        },
    }
}

/// Saving a form that is in order closes it and keeps what it holds: in the place of the
/// connection that was changed, or behind all the others. A form that is not in order
/// stays open, and the reason is shown.
pub proof fn law_what_saving_a_connection_does(app: AppModel, i: usize)
    ensures
        ({
            let after = app.remote_kept();
            let list = app.settings.profiles;
            &&& profile_error(app.form.remote) is Some ==> after == (AppModel {
                error: Some(profile_error(app.form.remote)->0.text()),
                ..app
            })
            &&& profile_error(app.form.remote) is None ==> {
                &&& !after.form.open && after.form == (FormModel { open: false, ..app.form })
                &&& after.workspace == app.workspace && after.error == app.error
                &&& after.windows == app.windows
                &&& after.settings.serial_profiles == app.settings.serial_profiles
                &&& app.form.editing_profile is None ==> after.settings.profiles == list.push(
                    app.form.remote,
                )
                &&& app.form.editing_profile == Some(i) && i < list.len()
                    ==> after.settings.profiles == list.update(i as int, app.form.remote)
            }
        }),
{
}

/// The same of a serial connection.
pub proof fn law_what_saving_a_serial_connection_does(app: AppModel, example: Seq<char>, i: usize)
    ensures
        ({
            let after = app.serial_kept(example);
            let list = app.settings.serial_profiles;
            &&& serial_error(app.form.serial) is Some ==> after == (AppModel {
                error: Some(serial_error(app.form.serial)->0.text(example)),
                ..app
            })
            &&& serial_error(app.form.serial) is None ==> {
                &&& !after.form.open && after.form == (FormModel { open: false, ..app.form })
                &&& after.workspace == app.workspace && after.error == app.error
                &&& after.windows == app.windows
                &&& after.settings.profiles == app.settings.profiles
                &&& app.form.editing_serial is None ==> after.settings.serial_profiles == list.push(
                    app.form.serial,
                )
                &&& app.form.editing_serial == Some(i) && i < list.len()
                    ==> after.settings.serial_profiles == list.update(i as int, app.form.serial)
            }
        }),
{
}

/// A form is saved, tested and connected by the kind that it shows.
pub proof fn law_a_form_stands_for_its_kind(app: AppModel, example: Seq<char>)
    ensures
        app.form.kind == ProfileKind::Ssh ==> app.form_saved(example) == app.remote_kept()
            && app.form_usable() == (profile_error(app.form.remote) is None) && app.form_session()
            == KindModel::Ssh(app.form.remote),
        app.form.kind == ProfileKind::Serial ==> app.form_saved(example) == app.serial_kept(example)
            && app.form_usable() == (serial_error(app.form.serial) is None) && app.form_session()
            == KindModel::Serial(app.form.serial),
{
}

/// The port that is offered is the first of the machine, and where there is none it is
/// chosen when the session connects.
pub proof fn law_which_port_is_offered(ports: Seq<SerialPortInfo>)
    ensures
        ports.len() > 0 ==> first_port(ports) == ports[0].name@,
        ports.len() == 0 ==> first_port(ports) == seq!['a', 'u', 't', 'o'],
{
    reveal_strlit("auto");
    assert("auto"@ =~= seq!['a', 'u', 't', 'o']);
}

} // verus!
