//! The server's process-wide configuration.  Loading it from the
//! environment happens outside the crate; missing required values are
//! fatal there, which [`Config::is_complete`] decides.

use vstd::prelude::*;

verus! {

/// The server's configuration.
pub struct Config {
    /// The HTTP listen address.
    pub sap_server_listen: String,
    /// Where the durable store lives.
    pub database_url: String,
    /// The shared filesystem root that holds job directories.
    pub nfs_dir: String,
    /// Scratch space for uploads in flight.
    pub tmp_dir: String,
    /// The telemetry backend, when one is configured.
    pub prometheus_url: Option<String>,
}

pub struct ConfigV {
    pub sap_server_listen: Seq<char>,
    pub database_url: Seq<char>,
    pub nfs_dir: Seq<char>,
    pub tmp_dir: Seq<char>,
    pub prometheus_url: Option<Seq<char>>,
}

impl View for Config {
    type V = ConfigV;

    open spec fn view(&self) -> ConfigV {
        ConfigV {
            sap_server_listen: self.sap_server_listen@,
            database_url: self.database_url@,
            nfs_dir: self.nfs_dir@,
            tmp_dir: self.tmp_dir@,
            prometheus_url: match self.prometheus_url {
                Some(s) => Some(s@),
                None => None,
            },
        }
    }
}

impl Config {
    /// Whether every required value is present.  The telemetry backend is
    /// optional; the other four are not.
    pub fn is_complete(&self) -> (b: bool)
        ensures
            b == (self@.sap_server_listen.len() != 0 && self@.database_url.len() != 0
                && self@.nfs_dir.len() != 0 && self@.tmp_dir.len() != 0),
    {
        let empty = String::new();
        proof {
            assert(empty@ =~= Seq::<char>::empty());
            if self@.sap_server_listen.len() == 0 {
                assert(self@.sap_server_listen =~= empty@);
            }
            if self@.database_url.len() == 0 {
                assert(self@.database_url =~= empty@);
            }
            if self@.nfs_dir.len() == 0 {
                assert(self@.nfs_dir =~= empty@);
            }
            if self@.tmp_dir.len() == 0 {
                assert(self@.tmp_dir =~= empty@);
            }
        }
        self.sap_server_listen != empty && self.database_url != empty && self.nfs_dir != empty
            && self.tmp_dir != empty
    }
}

} // verus!
