//! Asset bookkeeping: handles, their paths, their loading state and their
//! bytes. Reading a file is the caller's part: the manager says whether a
//! path needs to be read, and takes what the read gave.

use std::collections::HashMap;
use vstd::prelude::*;

verus! {

broadcast use vstd::std_specs::hash::group_hash_axioms;

/// Handle to an asset.
#[derive(Debug, Clone, Copy, PartialEq, Eq, Hash, Structural)]
pub struct AssetHandle(pub u32);

/// Asset loading state.
#[derive(Debug, Clone)]
pub enum AssetState {
    Loading,
    Loaded,
    /// The read failed, for the reason given.
    Failed(String),
}

/// What `begin_load` decided.
#[derive(Debug, Clone, Copy, PartialEq, Eq, Structural)]
pub struct LoadTicket {
    /// The handle of the path.
    pub handle: AssetHandle,
    /// Whether the path is new, so that its file has to be read and the
    /// outcome handed to `finish_load`.
    pub needs_read: bool,
}

/// Asset manager: caches what was loaded, one handle for each path.
pub struct AssetManager {
    next_handle: u32,
    paths: HashMap<u32, String>,
    states: HashMap<u32, AssetState>,
    bytes: HashMap<u32, Vec<u8>>,
}

impl AssetManager {
    /// The number of the next new handle.
    pub closed spec fn next_handle(&self) -> nat {
        self.next_handle as nat
    }

    /// The path of each handle, by the handle's number.
    pub closed spec fn paths(&self) -> Map<u32, String> {
        self.paths@
    }

    /// The loading state of each handle.
    pub closed spec fn states(&self) -> Map<u32, AssetState> {
        self.states@
    }

    /// The bytes of each loaded handle.
    pub closed spec fn bytes(&self) -> Map<u32, Vec<u8>> {
        self.bytes@
    }

    /// Whether some handle has the path `path`.
    pub open spec fn knows(&self, path: Seq<char>) -> bool {
        exists|id: u32| #[trigger] self.paths().dom().contains(id) && self.paths()[id]@ == path
    }

    /// Every handle has a number below the next one, a path of its own and a
    /// state, and bytes exactly if it is loaded.
    pub open spec fn wf(&self) -> bool {
        &&& self.next_handle() <= u32::MAX
        &&& forall|a: u32, b: u32|
            #![trigger self.paths().dom().contains(a), self.paths().dom().contains(b)]
            self.paths().dom().contains(a) && self.paths().dom().contains(b) && self.paths()[a]@
                == self.paths()[b]@ ==> a == b
        &&& forall|id: u32| #[trigger] self.paths().dom().contains(id) ==> id < self.next_handle()
        &&& self.paths().dom() == self.states().dom()
        &&& forall|id: u32| #[trigger]
            self.bytes().dom().contains(id) ==> self.states().dom().contains(id)
                && self.states()[id] is Loaded
        &&& forall|id: u32| #[trigger]
            self.states().dom().contains(id) && self.states()[id] is Loaded
                ==> self.bytes().dom().contains(id)
    }

    /// A manager without assets.
    pub fn new() -> (manager: Self)
        ensures
            manager.wf(),
            manager.next_handle() == 0,
            manager.paths() == Map::<u32, String>::empty(),
            manager.states() == Map::<u32, AssetState>::empty(),
            manager.bytes() == Map::<u32, Vec<u8>>::empty(),
    {
        AssetManager {
            next_handle: 0,
            paths: HashMap::new(),
            states: HashMap::new(),
            bytes: HashMap::new(),
        }
    }

    /// The handle of `path`, if it has one: walks the paths of all handles.
    pub fn find(&self, path: &String) -> (found: Option<AssetHandle>)
        ensures
            match found {
                Some(handle) => self.paths().dom().contains(handle.0)
                    && self.paths()[handle.0]@ == path@,
                None => !self.knows(path@),
            },
    {
        for pair in it: self.paths.iter()
            invariant
                forall|j: int| 0 <= j < it.index() ==> (#[trigger] it.seq()[j]).1@ != path@,
        {
            let (id, existing) = pair;
            if *existing == *path {
                return Some(AssetHandle(*id));
            }
        }
        None
    }

    /// Whether a new handle is left to give out.
    pub fn can_register(&self) -> (b: bool)
        ensures
            b == (self.next_handle() < u32::MAX),
    {
        self.next_handle < u32::MAX
    }

    /// Starts the load of `path`. A path that has a handle keeps it, and
    /// nothing changes. A new path gets the next handle, in state `Loading`,
    /// and the ticket asks for its file to be read.
    pub fn begin_load(&mut self, path: String) -> (ticket: LoadTicket)
        requires
            old(self).wf(),
            old(self).knows(path@) || old(self).next_handle() < u32::MAX,
        ensures
            final(self).wf(),
            ticket.needs_read == !old(self).knows(path@),
            old(self).knows(path@) ==> {
                &&& old(self).paths().dom().contains(ticket.handle.0)
                &&& old(self).paths()[ticket.handle.0]@ == path@
                &&& final(self).next_handle() == old(self).next_handle()
                &&& final(self).paths() == old(self).paths()
                &&& final(self).states() == old(self).states()
                &&& final(self).bytes() == old(self).bytes()
            },
            !old(self).knows(path@) ==> {
                &&& ticket.handle.0 == old(self).next_handle()
                &&& final(self).next_handle() == old(self).next_handle() + 1
                &&& final(self).paths() == old(self).paths().insert(ticket.handle.0, path)
                &&& final(self).states() == old(self).states().insert(
                    ticket.handle.0,
                    AssetState::Loading,
                )
                &&& final(self).bytes() == old(self).bytes()
            },
    {
        match self.find(&path) {
            Some(handle) => LoadTicket { handle, needs_read: false },
            None => {
                let id = self.next_handle;
                self.next_handle = id + 1;
                self.paths.insert(id, path);
                self.states.insert(id, AssetState::Loading);
                proof {
                    assert(self.paths().dom() =~= self.states().dom());
                    assert(!old(self).paths().dom().contains(id));
                    assert forall|a: u32, b: u32|
                        #![trigger self.paths().dom().contains(a), self.paths().dom().contains(b)]
                        self.paths().dom().contains(a) && self.paths().dom().contains(b)
                            && self.paths()[a]@ == self.paths()[b]@ implies a == b by {
                        if a != id && b != id {
                            assert(old(self).paths().dom().contains(a));
                            assert(old(self).paths().dom().contains(b));
                        } else if a != id {
                            assert(old(self).paths().dom().contains(a));
                        } else if b != id {
                            assert(old(self).paths().dom().contains(b));
                        }
                    }
                    assert forall|k: u32| #[trigger]
                        self.bytes().dom().contains(k) implies self.states().dom().contains(k)
                        && self.states()[k] is Loaded by {
                        assert(old(self).bytes().dom().contains(k));
                        assert(k != id);
                    }
                    assert forall|k: u32| #[trigger]
                        self.states().dom().contains(k) && self.states()[k] is Loaded
                        implies self.bytes().dom().contains(k) by {
                        assert(k != id);
                        assert(old(self).states().dom().contains(k));
                    }
                }
                LoadTicket { handle: AssetHandle(id), needs_read: true }
            },
        }
    }

    /// Takes the outcome of the read of a handle's file: the bytes, with
    /// which the asset is `Loaded`, or the reason of the failure, with which
    /// it is `Failed`. Nothing changes for a handle that is not known.
    pub fn finish_load(&mut self, handle: AssetHandle, outcome: Result<Vec<u8>, String>)
        requires
            old(self).wf(),
        ensures
            final(self).wf(),
            final(self).next_handle() == old(self).next_handle(),
            final(self).paths() == old(self).paths(),
            !old(self).states().dom().contains(handle.0) ==> final(self).states() == old(
                self,
            ).states() && final(self).bytes() == old(self).bytes(),
            old(self).states().dom().contains(handle.0) ==> match outcome {
                Ok(data) => final(self).states() == old(self).states().insert(
                    handle.0,
                    AssetState::Loaded,
                ) && final(self).bytes() == old(self).bytes().insert(handle.0, data),
                Err(reason) => final(self).states() == old(self).states().insert(
                    handle.0,
                    AssetState::Failed(reason),
                ) && final(self).bytes() == old(self).bytes().remove(handle.0),
            },
    {
        if self.states.contains_key(&handle.0) {
            match outcome {
                Ok(data) => {
                    self.bytes.insert(handle.0, data);
                    self.states.insert(handle.0, AssetState::Loaded);
                },
                Err(reason) => {
                    self.bytes.remove(&handle.0);
                    self.states.insert(handle.0, AssetState::Failed(reason));
                },
            }
            proof {
                assert(self.paths().dom() =~= self.states().dom());
                assert forall|k: u32| #[trigger]
                    self.bytes().dom().contains(k) implies self.states().dom().contains(k)
                    && self.states()[k] is Loaded by {
                    if k != handle.0 {
                        assert(old(self).bytes().dom().contains(k));
                    }
                }
                assert forall|k: u32| #[trigger]
                    self.states().dom().contains(k) && self.states()[k] is Loaded
                    implies self.bytes().dom().contains(k) by {
                    if k != handle.0 {
                        assert(old(self).states().dom().contains(k));
                    }
                }
            }
        }
    }

    /// The state of an asset.
    pub fn state(&self, handle: AssetHandle) -> (state: Option<&AssetState>)
        ensures
            match state {
                Some(s) => self.states().dom().contains(handle.0) && *s == self.states()[handle.0],
                None => !self.states().dom().contains(handle.0),
            },
    {
        self.states.get(&handle.0)
    }

    /// Whether the asset is loaded.
    pub fn is_loaded(&self, handle: AssetHandle) -> (loaded: bool)
        ensures
            loaded == (self.states().dom().contains(handle.0)
                && self.states()[handle.0] is Loaded),
    {
        match self.states.get(&handle.0) {
            Some(AssetState::Loaded) => true,
            _ => false,
        }
    }

    /// The bytes of a loaded asset.
    pub fn get_bytes(&self, handle: AssetHandle) -> (bytes: Option<&[u8]>)
        requires
            self.wf(),
        ensures
            match bytes {
                Some(b) => self.states().dom().contains(handle.0)
                    && self.states()[handle.0] is Loaded && b@ == self.bytes()[handle.0]@,
                None => !(self.states().dom().contains(handle.0)
                    && self.states()[handle.0] is Loaded),
            },
    {
        if self.is_loaded(handle) {
            assert(self.bytes().dom().contains(handle.0));
            match self.bytes.get(&handle.0) {
                Some(data) => Some(data.as_slice()),
                None => None,
            }
        } else {
            None
        }
    }

    /// Forgets an asset: its path, its state and its bytes.
    pub fn unload(&mut self, handle: AssetHandle)
        requires
            old(self).wf(),
        ensures
            final(self).wf(),
            final(self).next_handle() == old(self).next_handle(),
            final(self).paths() == old(self).paths().remove(handle.0),
            final(self).states() == old(self).states().remove(handle.0),
            final(self).bytes() == old(self).bytes().remove(handle.0),
    {
        self.paths.remove(&handle.0);
        self.states.remove(&handle.0);
        self.bytes.remove(&handle.0);
        proof {
            assert(self.paths().dom() =~= self.states().dom());
            assert forall|a: u32, b: u32|
                #![trigger self.paths().dom().contains(a), self.paths().dom().contains(b)]
                self.paths().dom().contains(a) && self.paths().dom().contains(b)
                    && self.paths()[a]@ == self.paths()[b]@ implies a == b by {
                assert(old(self).paths().dom().contains(a));
                assert(old(self).paths().dom().contains(b));
            }
            assert forall|k: u32| #[trigger]
                self.bytes().dom().contains(k) implies self.states().dom().contains(k)
                && self.states()[k] is Loaded by {
                assert(old(self).bytes().dom().contains(k));
            }
            assert forall|k: u32| #[trigger]
                self.states().dom().contains(k) && self.states()[k] is Loaded
                implies self.bytes().dom().contains(k) by {
                assert(old(self).states().dom().contains(k));
            }
        }
    }

    /// Forgets every asset. Handles that were given out are not given out
    /// again.
    pub fn clear(&mut self)
        requires
            old(self).wf(),
        ensures
            final(self).wf(),
            final(self).next_handle() == old(self).next_handle(),
            final(self).paths() == Map::<u32, String>::empty(),
            final(self).states() == Map::<u32, AssetState>::empty(),
            final(self).bytes() == Map::<u32, Vec<u8>>::empty(),
    {
        self.paths.clear();
        self.states.clear();
        self.bytes.clear();
    }
}

} // verus!
