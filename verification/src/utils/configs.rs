use vstd::prelude::*;
use vstd::string::*;

verus! {

/// Why a configuration could not be read or written: the message of the
/// I/O error or of the JSON error.
#[derive(Debug)]
pub enum ErrorRConfigs {
    Io(String),
    SerdeJson(String),
}

/// A configuration error as plain values.
pub enum ErrorRConfigsView {
    Io(Seq<char>),
    SerdeJson(Seq<char>),
}

impl View for ErrorRConfigs {
    type V = ErrorRConfigsView;

    open spec fn view(&self) -> ErrorRConfigsView {
        match self {
            ErrorRConfigs::Io(text) => ErrorRConfigsView::Io(text@),
            ErrorRConfigs::SerdeJson(text) => ErrorRConfigsView::SerdeJson(text@),
        }
    }
}

/// How often the folder is scanned.
#[derive(Copy, Clone, Debug)]
pub struct RConfigSynchronizer {
    /// Seconds between two scans.
    pub timeout: usize,
}

/// Settings of the watcher: none so far.
#[derive(Copy, Clone, Debug)]
pub struct RConfigWatcher {}

/// Where the store is kept.
#[derive(Debug)]
pub struct RConfigDatabase {
    pub path: String,
}

impl Clone for RConfigDatabase {
    fn clone(&self) -> (r: RConfigDatabase)
        ensures
            r.path@ == self.path@,
    {
        RConfigDatabase { path: self.path.clone() }
    }
}

/// The address of a node: this instance's server, or a peer.
#[derive(Debug)]
pub struct RConfigNode {
    pub host: String,
    pub port: usize,
    pub ssl: bool,
}

/// The address of a node as plain values.
pub struct RConfigNodeView {
    pub host: Seq<char>,
    pub port: usize,
    pub ssl: bool,
}

impl View for RConfigNode {
    type V = RConfigNodeView;

    open spec fn view(&self) -> RConfigNodeView {
        RConfigNodeView { host: self.host@, port: self.port, ssl: self.ssl }
    }
}

impl Clone for RConfigNode {
    fn clone(&self) -> (r: RConfigNode)
        ensures
            r@ == self@,
    {
        RConfigNode { host: self.host.clone(), port: self.port, ssl: self.ssl }
    }
}

/// The configuration of an instance.
#[derive(Debug)]
pub struct RConfig {
    pub folder_path: String,
    pub server: RConfigNode,
    pub synchronizer: RConfigSynchronizer,
    pub watcher: RConfigWatcher,
    pub database: RConfigDatabase,
    pub nodes: Vec<RConfigNode>,
}

/// A configuration as plain values.
pub struct RConfigView {
    pub folder_path: Seq<char>,
    pub server: RConfigNodeView,
    pub synchronizer_timeout: usize,
    pub watcher: RConfigWatcher,
    pub database_path: Seq<char>,
    pub nodes: Seq<RConfigNodeView>,
}

/// The configured peers as plain values.
pub open spec fn peers_view(nodes: Seq<RConfigNode>) -> Seq<RConfigNodeView> {
    nodes.map_values(|n: RConfigNode| n@)
}

impl View for RConfig {
    type V = RConfigView;

    open spec fn view(&self) -> RConfigView {
        RConfigView {
            folder_path: self.folder_path@,
            server: self.server@,
            synchronizer_timeout: self.synchronizer.timeout,
            watcher: self.watcher,
            database_path: self.database.path@,
            nodes: peers_view(self.nodes@),
        }
    }
}

impl Clone for RConfig {
    fn clone(&self) -> (r: RConfig)
        ensures
            r@ == self@,
    {
        let mut nodes: Vec<RConfigNode> = Vec::new();
        let mut i: usize = 0;
        while i < self.nodes.len()
            invariant
                i <= self.nodes.len(),
                peers_view(nodes@) == peers_view(self.nodes@).take(i as int),
            decreases self.nodes.len() - i,
        {
            let ghost before = nodes@;
            let node = self.nodes[i].clone();
            nodes.push(node);
            assert(peers_view(nodes@) =~= peers_view(before).push(node@));
            assert(peers_view(self.nodes@).take(i as int + 1) =~= peers_view(self.nodes@).take(i as int).push(
                peers_view(self.nodes@)[i as int],
            ));
            i += 1;
        }
        assert(peers_view(self.nodes@).take(self.nodes.len() as int) =~= peers_view(self.nodes@));
        RConfig {
            folder_path: self.folder_path.clone(),
            server: self.server.clone(),
            synchronizer: self.synchronizer,
            watcher: self.watcher,
            database: self.database.clone(),
            nodes,
        }
    }
}

/// The configuration that an instance starts with: it serves on
/// `0.0.0.0:4000` without TLS, scans every two seconds, and has no peers.
pub open spec fn default_config(folder_path: Seq<char>) -> RConfigView {
    RConfigView {
        folder_path,
        server: RConfigNodeView { host: "0.0.0.0"@, port: 4000, ssl: false },
        synchronizer_timeout: 2,
        watcher: RConfigWatcher {  },
        database_path: "/home/roothunter/Dev/raidx/config/raidx.database.db"@,
        nodes: Seq::empty(),
    }
}

/// What loading a configuration gave, as plain values.
pub open spec fn loaded_view(r: Result<RConfig, ErrorRConfigs>) -> Result<RConfigView, ErrorRConfigsView> {
    match r {
        Ok(config) => Ok(config@),
        Err(e) => Err(e@),
    }
}

/// The configuration to run with: what the file gave where there is one,
/// else the default for the folder once it was written out.
pub open spec fn chosen_config(
    found: Option<Result<RConfigView, ErrorRConfigsView>>,
    folder_path: Seq<char>,
    dumped: Result<(), ErrorRConfigsView>,
) -> Result<RConfigView, ErrorRConfigsView> {
    match found {
        Some(loaded) => loaded,
        None => match dumped {
            Ok(_) => Ok(default_config(folder_path)),
            Err(e) => Err(e),
        },
    }
}

impl RConfig {
    /// The default configuration for a folder.
    pub fn get_default(folder_path: String) -> (r: RConfig)
        ensures
            r@ == default_config(folder_path@),
    {
        let r = RConfig {
            folder_path: folder_path,
            server: RConfigNode { host: String::from_str("0.0.0.0"), port: 4000, ssl: false },
            synchronizer: RConfigSynchronizer { timeout: 2 },
            watcher: RConfigWatcher {  },
            database: RConfigDatabase {
                path: String::from_str("/home/roothunter/Dev/raidx/config/raidx.database.db"),
            },
            nodes: Vec::new(),
        };
        assert(r@.nodes =~= Seq::<RConfigNodeView>::empty());
        r
    }

    /// Chooses the configuration to run with. `found` is what reading the
    /// configuration file gave, or `None` where there is no such file;
    /// `dumped` is what writing the default configuration out gave, and
    /// counts only where there is no file.
    pub fn load_or_create_default(
        found: Option<Result<RConfig, ErrorRConfigs>>,
        folder_path: String,
        dumped: Result<(), ErrorRConfigs>,
    ) -> (r: Result<RConfig, ErrorRConfigs>)
        ensures
            loaded_view(r) == chosen_config(
                match found {
                    Some(loaded) => Some(loaded_view(loaded)),
                    None => None,
                },
                folder_path@,
                match dumped {
                    Ok(_) => Ok(()),
                    Err(e) => Err(e@),
                },
            ),
    {
        match found {
            Some(loaded) => loaded,
            None => match dumped {
                Ok(_) => Ok(RConfig::get_default(folder_path)),
                Err(e) => Err(e),
            },
        }
    }
}

} // verus!
