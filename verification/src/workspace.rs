//! The multi-root workspace: its folders, its settings, and which folder a
//! document belongs to.
use vstd::prelude::*;

use crate::path::{innermost_folder, innermost_index, lemma_innermost_index_bounds};
use crate::uri::{uri_to_path, Uri};

verus! {

/// A root folder of the workspace.
#[derive(Debug)]
pub struct WorkspaceFolder {
    /// The human-readable name of the folder.
    pub name: String,
    /// The URI of the folder root.
    pub uri: Uri,
}

impl Clone for WorkspaceFolder {
    fn clone(&self) -> (r: Self)
        ensures
            r.name == self.name,
            r.uri@ == self.uri@,
    {
        WorkspaceFolder { name: self.name.clone(), uri: self.uri.clone() }
    }
}

impl WorkspaceFolder {
    pub fn new(name: String, uri: Uri) -> (f: Self)
        ensures
            f.name == name,
            f.uri == uri,
    {
        WorkspaceFolder { name, uri }
    }

    /// The file system path of this folder, if its URI converts to one.
    pub fn path(&self) -> (r: Option<String>)
        ensures
            match uri_to_path(self.uri@) {
                Some(p) => r matches Some(q) && q@ == p,
                None => r is None,
            },
    {
        match self.uri.to_path() {
            Ok(p) => Some(p),
            Err(_) => None,
        }
    }
}

/// The folder paths of a list of folders, where they have one.
pub open spec fn folder_paths(fs: Seq<WorkspaceFolder>) -> Seq<Option<Seq<char>>> {
    fs.map_values(|f: WorkspaceFolder| uri_to_path(f.uri@))
}

/// Multi-root workspace state: the root URI, the folders and the settings.
#[derive(Debug)]
pub struct Workspace {
    /// The primary root URI (`None` for untitled workspaces).
    pub root_uri: Option<Uri>,
    folders: Vec<WorkspaceFolder>,
    settings: serde_json::Value,
}

fn copy_folders(v: &Vec<WorkspaceFolder>) -> (r: Vec<WorkspaceFolder>)
    ensures
        r@.len() == v@.len(),
        forall|i: int|
            0 <= i < v@.len() ==> (#[trigger] r@[i]).name == v@[i].name && r@[i].uri@
                == v@[i].uri@,
{
    let mut r: Vec<WorkspaceFolder> = Vec::new();
    for i in 0..v.len()
        invariant
            r@.len() == i,
            forall|k: int|
                0 <= k < i ==> (#[trigger] r@[k]).name == v@[k].name && r@[k].uri@ == v@[k].uri@,
    {
        r.push(v[i].clone());
    }
    r
}

impl Workspace {
    /// The folders, in order.
    pub closed spec fn folders_spec(&self) -> Seq<WorkspaceFolder> {
        self.folders@
    }

    /// The root URI.
    pub closed spec fn root_spec(&self) -> Option<Uri> {
        self.root_uri
    }

    /// The settings.
    pub closed spec fn settings_spec(&self) -> serde_json::Value {
        self.settings
    }

    /// Create a new workspace.
    pub fn new(root_uri: Option<Uri>, folders: Vec<WorkspaceFolder>, settings: serde_json::Value) -> (w:
        Self)
        ensures
            w.root_spec() == root_uri,
            w.folders_spec() == folders@,
            w.settings_spec() == settings,
    {
        Workspace { root_uri, folders, settings }
    }

    /// A copy of the workspace folders.
    pub fn folders(&self) -> (r: Vec<WorkspaceFolder>)
        ensures
            r@.len() == self.folders_spec().len(),
            forall|i: int|
                0 <= i < r@.len() ==> (#[trigger] r@[i]).name == self.folders_spec()[i].name
                    && r@[i].uri@ == self.folders_spec()[i].uri@,
    {
        copy_folders(&self.folders)
    }

    /// Replace the workspace folders.
    pub fn set_folders(&mut self, new_folders: Vec<WorkspaceFolder>)
        ensures
            final(self).folders_spec() == new_folders@,
            final(self).settings_spec() == old(self).settings_spec(),
            final(self).root_spec() == old(self).root_spec(),
    {
        self.folders = new_folders;
    }

    /// A copy of the current settings.
    pub fn settings(&self) -> (r: serde_json::Value)
        ensures
            r == self.settings_spec(),
    {
        self.settings.clone()
    }

    /// Replace the settings.
    pub fn set_settings(&mut self, new_settings: serde_json::Value)
        ensures
            final(self).settings_spec() == new_settings,
            final(self).folders_spec() == old(self).folders_spec(),
            final(self).root_spec() == old(self).root_spec(),
    {
        self.settings = new_settings;
    }

    /// The innermost workspace folder that contains `uri`: among the folders
    /// whose path is a prefix of the URI's path, the one with the longest
    /// path, the last such on a tie.
    pub fn folder_for_uri(&self, uri: &Uri) -> (r: Option<WorkspaceFolder>)
        ensures
            match uri_to_path(uri@) {
                None => r is None,
                Some(target) => match innermost_index(target, folder_paths(self.folders_spec())) {
                    Some(j) => r matches Some(f) && f.name == self.folders_spec()[j].name && f.uri@
                        == self.folders_spec()[j].uri@,
                    None => r is None,
                },
            },
    {
        let target = match uri.to_path() {
            Ok(p) => p,
            Err(_) => return None,
        };
        let mut paths: Vec<Option<String>> = Vec::new();
        for i in 0..self.folders.len()
            invariant
                paths@.len() == i,
                forall|k: int|
                    0 <= k < i ==> match #[trigger] paths@[k] {
                        Some(p) => uri_to_path(self.folders@[k].uri@) == Some(p@),
                        None => uri_to_path(self.folders@[k].uri@) is None,
                    },
        {
            paths.push(self.folders[i].path());
        }
        let ghost pv = paths@.map_values(|p: Option<String>| match p {
            Some(s) => Some(s@),
            None => None,
        });
        assert(pv =~= folder_paths(self.folders@));
        assert(uri_to_path(uri@) == Some(target@));
        proof {
            lemma_innermost_index_bounds(target@, pv);
        }
        match innermost_folder(target.as_str(), &paths) {
            Some(j) => {
                Some(self.folders[j].clone())
            },
            None => None,
        }
    }
}

} // verus!
