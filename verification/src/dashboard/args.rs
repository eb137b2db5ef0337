//! The command line of the dashboard.

use crate::decimal::{
    law_errors_tell_numbers_apart, number_error, number_error_of, parse_unsigned, unsigned_of, NumberError,
};
use crate::text::same;
use crate::views::{opt_view, views};
use vstd::prelude::*;
use vstd::string::*;

verus! {

/// What the dashboard was told.
#[derive(Debug, Clone, PartialEq, Eq)]
pub struct Config {
    pub control_plane_addr: Option<String>,
    pub tls_ca_file: Option<String>,
    pub tls_cert_file: Option<String>,
    pub tls_key_file: Option<String>,
    pub tls_crl_file: Option<String>,
    pub listen_addr: String,
    pub dashboard_tls_cert_file: Option<String>,
    pub dashboard_tls_key_file: Option<String>,
    pub poll_interval_secs: u64,
}

/// What a [`Config`] holds.
#[verifier::ext_equal]
pub struct ConfigView {
    pub control_plane_addr: Option<Seq<char>>,
    pub tls_ca_file: Option<Seq<char>>,
    pub tls_cert_file: Option<Seq<char>>,
    pub tls_key_file: Option<Seq<char>>,
    pub tls_crl_file: Option<Seq<char>>,
    pub listen_addr: Seq<char>,
    pub dashboard_tls_cert_file: Option<Seq<char>>,
    pub dashboard_tls_key_file: Option<Seq<char>>,
    pub poll_interval_secs: u64,
}

impl View for Config {
    type V = ConfigView;

    open spec fn view(&self) -> ConfigView {
        ConfigView {
            control_plane_addr: opt_view(self.control_plane_addr),
            tls_ca_file: opt_view(self.tls_ca_file),
            tls_cert_file: opt_view(self.tls_cert_file),
            tls_key_file: opt_view(self.tls_key_file),
            tls_crl_file: opt_view(self.tls_crl_file),
            listen_addr: self.listen_addr@,
            dashboard_tls_cert_file: opt_view(self.dashboard_tls_cert_file),
            dashboard_tls_key_file: opt_view(self.dashboard_tls_key_file),
            poll_interval_secs: self.poll_interval_secs,
        }
    }
}

/// What is wrong with a command line.
#[derive(Debug, Clone, PartialEq, Eq)]
pub enum ArgsError {
    MissingValue(String),
    UnknownFlag(String),
    InvalidPollInterval(String, NumberError),
    /// One of the flags for the control plane is missing.
    ControlPlaneFlags,
    /// One of the flags for browsers is missing.
    DashboardFlags,
}

/// What an [`ArgsError`] holds.
#[verifier::ext_equal]
pub enum ArgsErrorView {
    MissingValue(Seq<char>),
    UnknownFlag(Seq<char>),
    InvalidPollInterval(Seq<char>, NumberError),
    ControlPlaneFlags,
    DashboardFlags,
}

impl View for ArgsError {
    type V = ArgsErrorView;

    open spec fn view(&self) -> ArgsErrorView {
        match self {
            ArgsError::MissingValue(flag) => ArgsErrorView::MissingValue(flag@),
            ArgsError::UnknownFlag(flag) => ArgsErrorView::UnknownFlag(flag@),
            ArgsError::InvalidPollInterval(value, why) => ArgsErrorView::InvalidPollInterval(value@, *why),
            ArgsError::ControlPlaneFlags => ArgsErrorView::ControlPlaneFlags,
            ArgsError::DashboardFlags => ArgsErrorView::DashboardFlags,
        }
    }
}

impl ArgsErrorView {
    /// What to tell the user.
    pub open spec fn message(self) -> Seq<char> {
        match self {
            ArgsErrorView::MissingValue(flag) => "missing value for "@ + flag,
            ArgsErrorView::UnknownFlag(flag) => "unknown flag: "@ + flag,
            ArgsErrorView::InvalidPollInterval(value, why) => "invalid --poll-interval-secs '"@ + value + "': "@
                + why.text(),
            ArgsErrorView::ControlPlaneFlags =>
                "--control-plane-addr, --tls-ca-file, --tls-cert-file, --tls-key-file, and --tls-crl-file are all required"@,
            ArgsErrorView::DashboardFlags => "--dashboard-tls-cert-file and --dashboard-tls-key-file are required"@,
        }
    }
}

impl ArgsError {
    /// What to tell the user.
    pub fn message(&self) -> (r: String)
        ensures
            r@ == self@.message(),
    {
        match self {
            ArgsError::MissingValue(flag) => {
                let mut out = "missing value for ".to_owned();
                out.append(flag.as_str());
                out
            },
            ArgsError::UnknownFlag(flag) => {
                let mut out = "unknown flag: ".to_owned();
                out.append(flag.as_str());
                out
            },
            ArgsError::InvalidPollInterval(value, why) => {
                let mut out = "invalid --poll-interval-secs '".to_owned();
                out.append(value.as_str());
                out.append("': ");
                out.append(why.message());
                out
            },
            ArgsError::ControlPlaneFlags => {
                "--control-plane-addr, --tls-ca-file, --tls-cert-file, --tls-key-file, and --tls-crl-file are all required".to_owned()
            },
            ArgsError::DashboardFlags => {
                "--dashboard-tls-cert-file and --dashboard-tls-key-file are required".to_owned()
            },
        }
    }
}

impl Default for Config {
    fn default() -> (r: Self)
        ensures
            r@ == ConfigView::defaults(),
    {
        let r = Config {
            control_plane_addr: None,
            tls_ca_file: None,
            tls_cert_file: None,
            tls_key_file: None,
            tls_crl_file: None,
            listen_addr: "0.0.0.0:8443".to_owned(),
            dashboard_tls_cert_file: None,
            dashboard_tls_key_file: None,
            poll_interval_secs: 5,
        };
        assert(r@ =~= ConfigView::defaults());
        r
    }
}

impl ConfigView {
    pub open spec fn defaults() -> ConfigView {
        ConfigView {
            control_plane_addr: None,
            tls_ca_file: None,
            tls_cert_file: None,
            tls_key_file: None,
            tls_crl_file: None,
            listen_addr: "0.0.0.0:8443"@,
            dashboard_tls_cert_file: None,
            dashboard_tls_key_file: None,
            poll_interval_secs: 5,
        }
    }

    /// The configuration after a flag with its value.
    pub open spec fn with(self, flag: Seq<char>, value: Seq<char>) -> Result<ConfigView, ArgsErrorView> {
        if flag == "--control-plane-addr"@ {
            Ok(ConfigView { control_plane_addr: Some(value), ..self })
        } else if flag == "--tls-ca-file"@ {
            Ok(ConfigView { tls_ca_file: Some(value), ..self })
        } else if flag == "--tls-cert-file"@ {
            Ok(ConfigView { tls_cert_file: Some(value), ..self })
        } else if flag == "--tls-key-file"@ {
            Ok(ConfigView { tls_key_file: Some(value), ..self })
        } else if flag == "--tls-crl-file"@ {
            Ok(ConfigView { tls_crl_file: Some(value), ..self })
        } else if flag == "--listen-addr"@ {
            Ok(ConfigView { listen_addr: value, ..self })
        } else if flag == "--dashboard-tls-cert-file"@ {
            Ok(ConfigView { dashboard_tls_cert_file: Some(value), ..self })
        } else if flag == "--dashboard-tls-key-file"@ {
            Ok(ConfigView { dashboard_tls_key_file: Some(value), ..self })
        } else if flag == "--poll-interval-secs"@ {
            match number_error_of(value, u64::MAX as nat) {
                None => Ok(
                    ConfigView { poll_interval_secs: unsigned_of(value, u64::MAX as nat)->0 as u64, ..self },
                ),
                Some(why) => Err(ArgsErrorView::InvalidPollInterval(value, why)),
            }
        } else {
            Err(ArgsErrorView::UnknownFlag(flag))
        }
    }

    /// The configuration after all flags, each followed by its value.
    pub open spec fn with_all(self, args: Seq<Seq<char>>) -> Result<ConfigView, ArgsErrorView>
        decreases args.len(),
    {
        if args.len() == 0 {
            Ok(self)
        } else if args.len() == 1 {
            Err(ArgsErrorView::MissingValue(args[0]))
        } else {
            match self.with(args[0], args[1]) {
                Ok(next) => next.with_all(args.skip(2)),
                Err(e) => Err(e),
            }
        }
    }

    /// The configuration, if nothing is missing that has no default.
    pub open spec fn complete(self) -> Result<ConfigView, ArgsErrorView> {
        if self.control_plane_addr is None || self.tls_ca_file is None || self.tls_cert_file is None
            || self.tls_key_file is None || self.tls_crl_file is None {
            Err(ArgsErrorView::ControlPlaneFlags)
        } else if self.dashboard_tls_cert_file is None || self.dashboard_tls_key_file is None {
            Err(ArgsErrorView::DashboardFlags)
        } else {
            Ok(self)
        }
    }

    /// What a command line says.
    pub open spec fn parsed(args: Seq<Seq<char>>) -> Result<ConfigView, ArgsErrorView> {
        match ConfigView::defaults().with_all(args) {
            Ok(config) => config.complete(),
            Err(e) => Err(e),
        }
    }
}

/// A result by what it holds.
pub open spec fn config_view(r: Result<Config, ArgsError>) -> Result<ConfigView, ArgsErrorView> {
    match r {
        Ok(config) => Ok(config@),
        Err(e) => Err(e@),
    }
}

/// The configuration after a flag with its value.
fn apply(config: Config, flag: &str, value: String) -> (r: Result<Config, ArgsError>)
    ensures
        config_view(r) == config@.with(flag@, value@),
{
    let mut config = config;
    if same(flag, "--control-plane-addr") {
        config.control_plane_addr = Some(value);
    } else if same(flag, "--tls-ca-file") {
        config.tls_ca_file = Some(value);
    } else if same(flag, "--tls-cert-file") {
        config.tls_cert_file = Some(value);
    } else if same(flag, "--tls-key-file") {
        config.tls_key_file = Some(value);
    } else if same(flag, "--tls-crl-file") {
        config.tls_crl_file = Some(value);
    } else if same(flag, "--listen-addr") {
        config.listen_addr = value;
    } else if same(flag, "--dashboard-tls-cert-file") {
        config.dashboard_tls_cert_file = Some(value);
    } else if same(flag, "--dashboard-tls-key-file") {
        config.dashboard_tls_key_file = Some(value);
    } else if same(flag, "--poll-interval-secs") {
        proof {
            law_errors_tell_numbers_apart(value@, u64::MAX as nat);
        }
        match number_error(value.as_str(), u64::MAX) {
            None => {
                config.poll_interval_secs = parse_unsigned(value.as_str(), u64::MAX).unwrap();
            },
            Some(why) => {
                return Err(ArgsError::InvalidPollInterval(value, why));
            },
        }
    } else {
        return Err(ArgsError::UnknownFlag(flag.to_owned()));
    }
    Ok(config)
}

/// Reads a command line, without the name of the program. A flag that is given twice counts the second
/// time.
pub fn parse_args_from(args: Vec<String>) -> (r: Result<Config, ArgsError>)
    ensures
        config_view(r) == ConfigView::parsed(views(args@)),
{
    let ghost all = views(args@);
    let mut config = Config::default();
    let mut i: usize = 0;
    assert(all.skip(0) =~= all);
    while i < args.len()
        invariant
            all == views(args@),
            i <= args@.len(),
            config@.with_all(all.skip(i as int)) == ConfigView::defaults().with_all(all),
        decreases args.len() - i,
    {
        let ghost rest = all.skip(i as int);
        assert(rest[0] == args@[i as int]@);
        if i + 1 == args.len() {
            return Err(ArgsError::MissingValue(args[i].clone()));
        }
        assert(rest[1] == args@[i + 1]@);
        assert(rest.skip(2) =~= all.skip(i + 2));
        match apply(config, args[i].as_str(), args[i + 1].clone()) {
            Ok(next) => {
                config = next;
            },
            Err(e) => {
                return Err(e);
            },
        }
        i = i + 2;
    }
    assert(all.skip(i as int).len() == 0);
    if config.control_plane_addr.is_none() || config.tls_ca_file.is_none() || config.tls_cert_file.is_none()
        || config.tls_key_file.is_none() || config.tls_crl_file.is_none() {
        return Err(ArgsError::ControlPlaneFlags);
    }
    if config.dashboard_tls_cert_file.is_none() || config.dashboard_tls_key_file.is_none() {
        return Err(ArgsError::DashboardFlags);
    }
    Ok(config)
}

} // verus!
