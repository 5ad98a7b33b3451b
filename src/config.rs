//! Settings, as read from the configuration file and with defaults applied.
use vstd::prelude::*;
use crate::rewrites::RewriteRule;

verus! {

/// Default UDP listen port.
pub const DEFAULT_PORT: u16 = 53;

/// Why a configuration was refused.
#[derive(Debug, Clone, Copy, PartialEq, Eq, Structural)]
pub enum ConfigError {
    /// The mirror is enabled but no server is given.
    NoMirrorServers,
    /// Blocking is enabled but no list is given.
    NoBlockLists,
}

#[derive(Clone, Default)]
pub struct ServerSettingsFile {
    pub port: Option<u16>,
    pub bind: Option<String>,
}

#[derive(Clone, Default)]
pub struct MirrorSettingsFile {
    pub enabled: Option<bool>,
    pub servers: Vec<String>,
}

#[derive(Clone, Default)]
pub struct BlockSettingsFile {
    pub enabled: Option<bool>,
    pub lists: Vec<String>,
}

#[derive(Clone)]
pub struct ConfigFile {
    pub server: Option<ServerSettingsFile>,
    pub mirror: Option<MirrorSettingsFile>,
    pub block: Option<BlockSettingsFile>,
    pub rewrites: Vec<RewriteRule>,
}

#[derive(Clone)]
pub struct ServerSettings {
    pub port: u16,
    pub bind: String,
}

#[derive(Clone)]
pub struct MirrorSettings {
    pub enabled: bool,
    pub servers: Vec<String>,
}

#[derive(Clone)]
pub struct BlockSettings {
    pub enabled: bool,
    pub lists: Vec<String>,
}

#[derive(Clone)]
pub struct Config {
    pub server: ServerSettings,
    pub mirror: MirrorSettings,
    pub block: BlockSettings,
    pub rewrites: Vec<RewriteRule>,
}

pub open spec fn default_bind() -> Seq<char> {
    seq!['0', '.', '0', '.', '0', '.', '0']
}

impl ServerSettings {
    /// Port 53 and bind address 0.0.0.0 unless given.
    pub fn from_file(val: ServerSettingsFile) -> (r: ServerSettings)
        ensures
            r.port == match val.port {
                Some(p) => p,
                None => DEFAULT_PORT,
            },
            r.bind@ == match val.bind {
                Some(b) => b@,
                None => default_bind(),
            },
    {
        let bind = match val.bind {
            Some(b) => b,
            None => {
                let v = vec!['0', '.', '0', '.', '0', '.', '0'];
                assert(v@ =~= default_bind());
                crate::text::string_of(&v, 0, 7)
            },
        };
        ServerSettings {
            port: match val.port {
                Some(p) => p,
                None => DEFAULT_PORT,
            },
            bind,
        }
    }
}

impl MirrorSettings {
    /// Enabled unless turned off; servers are required when enabled.
    pub fn from_file(val: MirrorSettingsFile) -> (r: Result<MirrorSettings, ConfigError>)
        ensures
            (val.enabled != Some(false) && val.servers@.len() == 0) <==> r is Err,
            r is Err ==> r == Err::<MirrorSettings, ConfigError>(ConfigError::NoMirrorServers),
            r matches Ok(m) ==> m.enabled == (val.enabled != Some(false)) && m.servers@
                == val.servers@,
    {
        let enabled = match val.enabled {
            Some(e) => e,
            None => true,
        };
        if enabled && val.servers.len() == 0 {
            return Err(ConfigError::NoMirrorServers);
        }
        Ok(MirrorSettings { enabled, servers: val.servers })
    }
}

impl BlockSettings {
    /// Enabled unless turned off; lists are required when enabled.
    pub fn from_file(val: BlockSettingsFile) -> (r: Result<BlockSettings, ConfigError>)
        ensures
            (val.enabled != Some(false) && val.lists@.len() == 0) <==> r is Err,
            r is Err ==> r == Err::<BlockSettings, ConfigError>(ConfigError::NoBlockLists),
            r matches Ok(b) ==> b.enabled == (val.enabled != Some(false)) && b.lists@ == val.lists@,
    {
        let enabled = match val.enabled {
            Some(e) => e,
            None => true,
        };
        if enabled && val.lists.len() == 0 {
            return Err(ConfigError::NoBlockLists);
        }
        Ok(BlockSettings { enabled, lists: val.lists })
    }
}

impl Config {
    /// Apply defaults to each missing section and check what is required.
    pub fn from_file(val: ConfigFile) -> (r: Result<Config, ConfigError>)
        ensures
            ({
                let m_on = match val.mirror {
                    Some(m) => m.enabled != Some(false) && m.servers@.len() == 0,
                    None => true,
                };
                let b_on = match val.block {
                    Some(b) => b.enabled != Some(false) && b.lists@.len() == 0,
                    None => true,
                };
                &&& m_on ==> r == Err::<Config, ConfigError>(ConfigError::NoMirrorServers)
                &&& !m_on && b_on ==> r == Err::<Config, ConfigError>(ConfigError::NoBlockLists)
                &&& !m_on && !b_on ==> r is Ok
            }),
            r matches Ok(c) ==> c.rewrites@ == val.rewrites@ && c.mirror.enabled == match val.mirror {
                Some(m) => m.enabled != Some(false),
                None => true,
            } && c.block.enabled == match val.block {
                Some(b) => b.enabled != Some(false),
                None => true,
            },
            r matches Ok(c) ==> c.server.port == match val.server {
                Some(s) => match s.port {
                    Some(p) => p,
                    None => DEFAULT_PORT,
                },
                None => DEFAULT_PORT,
            } && c.server.bind@ == match val.server {
                Some(s) => match s.bind {
                    Some(b) => b@,
                    None => default_bind(),
                },
                None => default_bind(),
            },
            r matches Ok(c) ==> c.mirror.servers@ == match val.mirror {
                Some(m) => m.servers@,
                None => Seq::<String>::empty(),
            } && c.block.lists@ == match val.block {
                Some(b) => b.lists@,
                None => Seq::<String>::empty(),
            },
    {
        let server = ServerSettings::from_file(match val.server {
            Some(s) => s,
            None => ServerSettingsFile { port: None, bind: None },
        });
        let mirror = MirrorSettings::from_file(match val.mirror {
            Some(m) => m,
            None => MirrorSettingsFile { enabled: None, servers: Vec::new() },
        })?;
        assert(val.mirror is None ==> mirror.servers@ =~= Seq::<String>::empty());
        let block = BlockSettings::from_file(match val.block {
            Some(b) => b,
            None => BlockSettingsFile { enabled: None, lists: Vec::new() },
        })?;
        assert(val.block is None ==> block.lists@ =~= Seq::<String>::empty());
        Ok(Config { server, mirror, block, rewrites: val.rewrites })
    }
}

} // verus!
