//! Scan settings, and the traversal policy that is derived from them.

use vstd::prelude::*;

verus! {

/// Scan settings as they arrive from the command line, before any default is
/// applied.
pub struct Config {
    /// The directories to scan, in the order given.
    pub roots: Option<Vec<String>>,
    /// Whether symbolic links are followed.
    pub follow_links: bool,
    /// The least depth at which entries are yielded, if one was given.
    pub min_depth: Option<usize>,
    /// The greatest depth that is visited, if one was given.
    pub max_depth: Option<usize>,
    /// The number of directory handles that may be open at once.
    pub fd_max: usize,
    /// Whether the scan stays on the file system of its root.
    pub same_file_system: bool,
}

/// The rules of one traversal. It is made once for each root and never changes.
#[derive(Clone, Copy, Debug)]
pub struct TraversalPolicy {
    /// Symbolic links to directories are entered rather than yielded as leaves.
    pub follow_symlinks: bool,
    /// Entries above this depth are entered but not yielded. The root has depth 0.
    pub min_depth: usize,
    /// No entry below this depth is visited; `None` leaves the depth unbounded.
    pub max_depth: Option<usize>,
    /// The number of directory handles that may be open at once.
    pub max_open_handles: usize,
    /// Directories on another device than the root are not entered.
    pub stay_on_filesystem: bool,
}

impl TraversalPolicy {
    /// A policy is usable when it allows at least one open handle.
    pub open spec fn valid(&self) -> bool {
        self.max_open_handles >= 1
    }

    /// Whether `depth` does not exceed the greatest depth.
    pub open spec fn within_max(&self, depth: int) -> bool {
        match self.max_depth {
            Some(limit) => depth <= limit,
            None => true,
        }
    }

    /// Whether an entry at `depth` is yielded as far as its depth goes.
    pub open spec fn admits(&self, depth: int) -> bool {
        self.min_depth <= depth && self.within_max(depth)
    }

    /// Whether some depth is admitted at all. Bounds with the least depth above
    /// the greatest admit none, and a traversal under them yields nothing.
    pub open spec fn satisfiable(&self) -> bool {
        self.within_max(self.min_depth as int)
    }

    /// Decides `within_max` for a depth.
    pub fn allows_depth(&self, depth: usize) -> (allowed: bool)
        ensures
            allowed == self.within_max(depth as int),
    {
        match self.max_depth {
            Some(limit) => depth <= limit,
            None => true,
        }
    }

    /// Decides whether the children of a directory at `depth` may be visited.
    pub fn allows_below(&self, depth: usize) -> (allowed: bool)
        ensures
            allowed == self.within_max(depth + 1),
    {
        match self.max_depth {
            Some(limit) => depth < limit,
            None => true,
        }
    }

    /// Decides `admits` for a depth.
    pub fn yields_depth(&self, depth: usize) -> (yielded: bool)
        ensures
            yielded == self.admits(depth as int),
    {
        self.min_depth <= depth && self.allows_depth(depth)
    }

    /// Decides `satisfiable`.
    pub fn is_satisfiable(&self) -> (possible: bool)
        ensures
            possible == self.satisfiable(),
    {
        self.allows_depth(self.min_depth)
    }
}

/// The policy that a configuration stands for: a missing least depth is 0, a
/// missing greatest depth is unbounded, and a handle limit of 0 counts as 1.
pub open spec fn policy_of(config: &Config) -> TraversalPolicy {
    TraversalPolicy {
        follow_symlinks: config.follow_links,
        min_depth: match config.min_depth {
            Some(depth) => depth,
            None => 0,
        },
        max_depth: config.max_depth,
        max_open_handles: if config.fd_max == 0 {
            1
        } else {
            config.fd_max
        },
        stay_on_filesystem: config.same_file_system,
    }
}

/// The roots that a configuration stands for: the directories it names, or the
/// current directory where it names none.
pub open spec fn roots_of(config: &Config) -> Seq<Seq<char>> {
    match config.roots {
        Some(roots) if roots@.len() > 0 => roots@.map_values(|root: String| root@),
        _ => seq![seq!['.']],
    }
}

impl Config {
    /// Derives the traversal policy, applying the defaults.
    pub fn policy(&self) -> (policy: TraversalPolicy)
        ensures
            policy == policy_of(self),
            policy.valid(),
    {
        TraversalPolicy {
            follow_symlinks: self.follow_links,
            min_depth: match self.min_depth {
                Some(depth) => depth,
                None => 0,
            },
            max_depth: self.max_depth,
            max_open_handles: if self.fd_max == 0 {
                1
            } else {
                self.fd_max
            },
            stay_on_filesystem: self.same_file_system,
        }
    }

    /// Lists the roots to scan, in order: those given, or `"."` where none was.
    pub fn scan_roots(&self) -> (roots: Vec<String>)
        ensures
            roots@.map_values(|root: String| root@) == roots_of(self),
    {
        let mut out: Vec<String> = Vec::new();
        match &self.roots {
            Some(given) => {
                let mut i: usize = 0;
                while i < given.len()
                    invariant
                        i <= given.len(),
                        out@.len() == i,
                        forall|k: int| 0 <= k < i ==> out@[k]@ == given@[k]@,
                    decreases given.len() - i,
                {
                    out.push(given[i].clone());
                    i += 1;
                }
            },
            None => {},
        }
        if out.len() == 0 {
            proof {
                reveal_strlit(".");
            }
            out.push(String::from_str("."));
            assert(out@[0]@ =~= seq!['.']);
            assert(out@.map_values(|root: String| root@) =~= seq![seq!['.']]);
        } else {
            assert(out@.map_values(|root: String| root@) =~= self.roots->Some_0@.map_values(
                |root: String| root@,
            ));
        }
        out
    }
}

} // verus!
