//! Decisions around the companion plugin's installation state.
//!
//! Reading settings files and running installers happens outside the
//! library; what a given settings state means, and which install step to
//! take next, is decided here.

use vstd::prelude::*;

verus! {

/// Installation state of the companion plugin.
#[derive(Debug, Clone, Copy, PartialEq, Eq, Structural)]
pub enum PluginStatus {
    /// Installed from the local source and enabled.
    Installed,
    /// Installed but from another source, out of step with the local one.
    OutOfSync,
    /// Installed but disabled.
    Disabled,
    /// Not installed.
    NotInstalled,
}

impl PluginStatus {
    /// The status's wire label.
    pub open spec fn label_spec(self) -> Seq<char> {
        match self {
            PluginStatus::Installed => "installed"@,
            PluginStatus::OutOfSync => "out_of_sync"@,
            PluginStatus::Disabled => "disabled"@,
            PluginStatus::NotInstalled => "not_installed"@,
        }
    }

    /// The status's wire label.
    pub fn label(&self) -> (s: String)
        ensures
            s@ == self.label_spec(),
    {
        match self {
            PluginStatus::Installed => String::from_str("installed"),
            PluginStatus::OutOfSync => String::from_str("out_of_sync"),
            PluginStatus::Disabled => String::from_str("disabled"),
            PluginStatus::NotInstalled => String::from_str("not_installed"),
        }
    }
}

/// The first explicit enable flag among the known plugin identifiers,
/// scanned in priority order.
pub open spec fn first_flag(flags: Seq<Option<bool>>) -> Option<bool>
    decreases flags.len(),
{
    if flags.len() == 0 {
        None
    } else if flags.first() is Some {
        flags.first()
    } else {
        first_flag(flags.drop_first())
    }
}

/// What a settings state means: the first explicit flag decides between
/// enabled and disabled; with no flag at all, a registry entry still counts
/// as installed-but-disabled, and otherwise the plugin is absent.
pub open spec fn status_decision(flags: Seq<Option<bool>>, present_in_registry: bool) -> PluginStatus {
    match first_flag(flags) {
        Some(true) => PluginStatus::Installed,
        Some(false) => PluginStatus::Disabled,
        None => if present_in_registry {
            PluginStatus::Disabled
        } else {
            PluginStatus::NotInstalled
        },
    }
}

/// Classifies the plugin's installation state from the enable flags read for
/// each known identifier, in priority order, and from whether any identifier
/// appears in the installed-plugins registry.
pub fn plugin_status_from_settings(flags: &Vec<Option<bool>>, present_in_registry: bool) -> (st:
    PluginStatus)
    ensures
        st == status_decision(flags@, present_in_registry),
{
    let n = flags.len();
    let mut i: usize = 0;
    proof {
        assert(flags@.skip(0) =~= flags@);
    }
    while i < n
        invariant
            i <= n,
            n == flags@.len(),
            first_flag(flags@) == first_flag(flags@.skip(i as int)),
        decreases n - i,
    {
        match flags[i] {
            Some(true) => {
                proof {
                    assert(flags@.skip(i as int).first() == Some(true));
                }
                return PluginStatus::Installed;
            },
            Some(false) => {
                proof {
                    assert(flags@.skip(i as int).first() == Some(false));
                }
                return PluginStatus::Disabled;
            },
            None => {
                proof {
                    assert(flags@.skip(i as int).first() is None);
                    assert(flags@.skip(i as int).drop_first() =~= flags@.skip(i as int + 1));
                }
            },
        }
        i = i + 1;
    }
    proof {
        assert(flags@.skip(n as int).len() == 0);
    }
    if present_in_registry {
        PluginStatus::Disabled
    } else {
        PluginStatus::NotInstalled
    }
}

/// The next step toward a working plugin installation.
#[derive(Debug, Clone, Copy, PartialEq, Eq, Structural)]
pub enum PluginAction {
    /// Already installed and enabled: nothing to do.
    Nothing,
    /// Installed but disabled: enable it in the settings.
    Enable,
    /// Absent or out of step: install it (and then enable it).
    Install,
}

/// The step the current status calls for.
pub open spec fn install_action_spec(st: PluginStatus) -> PluginAction {
    match st {
        PluginStatus::Installed => PluginAction::Nothing,
        PluginStatus::Disabled => PluginAction::Enable,
        PluginStatus::OutOfSync => PluginAction::Install,
        PluginStatus::NotInstalled => PluginAction::Install,
    }
}

/// Decides the next install step for the current status.
pub fn plugin_install_action(status: &PluginStatus) -> (a: PluginAction)
    ensures
        a == install_action_spec(*status),
{
    match status {
        PluginStatus::Installed => PluginAction::Nothing,
        PluginStatus::Disabled => PluginAction::Enable,
        PluginStatus::OutOfSync => PluginAction::Install,
        PluginStatus::NotInstalled => PluginAction::Install,
    }
}

} // verus!
