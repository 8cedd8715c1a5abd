use crate::bytesutil::{bytes_eq, matches_query, name_matches};
use crate::errors::PentaractError;
use crate::chunks::spec_split;
use vstd::prelude::*;

verus! {

/// The ASCII code of the path separator '/'.
pub const SLASH: u8 = 47;

/// A stored chunk reference: the opaque remote object id the backend
/// assigned, the chunk's position within its file, the worker it was
/// uploaded through, and its byte size.
#[derive(Debug)]
pub struct ChunkRef {
    pub remote_id: Vec<u8>,
    pub index: usize,
    pub worker_id: u64,
    pub size: u64,
}

/// The mathematical value of a chunk reference.
pub struct ChunkRefV {
    pub remote_id: Seq<u8>,
    pub index: usize,
    pub worker_id: u64,
    pub size: u64,
}

impl View for ChunkRef {
    type V = ChunkRefV;

    open spec fn view(&self) -> ChunkRefV {
        ChunkRefV {
            remote_id: self.remote_id@,
            index: self.index,
            worker_id: self.worker_id,
            size: self.size,
        }
    }
}

impl Clone for ChunkRef {
    fn clone(&self) -> (r: Self)
        ensures
            r@ == self@,
    {
        let remote_id = self.remote_id.clone();
        proof {
            assert(remote_id@ =~= self.remote_id@);
        }
        ChunkRef { remote_id, index: self.index, worker_id: self.worker_id, size: self.size }
    }
}

/// A node of the virtual file tree: a logical path within the storage,
/// its kind, its size, and — for a file — its ordered chunk references.
#[derive(Debug)]
pub struct FileNode {
    pub path: Vec<u8>,
    pub is_dir: bool,
    pub size: u64,
    pub chunks: Vec<ChunkRef>,
}

/// The mathematical value of a file node.
pub struct FileNodeV {
    pub path: Seq<u8>,
    pub is_dir: bool,
    pub size: u64,
    pub chunks: Seq<ChunkRefV>,
}

impl View for FileNode {
    type V = FileNodeV;

    open spec fn view(&self) -> FileNodeV {
        FileNodeV {
            path: self.path@,
            is_dir: self.is_dir,
            size: self.size,
            chunks: chunk_views_of(self.chunks@),
        }
    }
}

impl Clone for FileNode {
    fn clone(&self) -> (r: Self)
        ensures
            r@ == self@,
    {
        let path = self.path.clone();
        let mut chunks: Vec<ChunkRef> = Vec::new();
        let mut i: usize = 0;
        while i < self.chunks.len()
            invariant
                i <= self.chunks@.len(),
                chunks@.len() == i,
                forall|j: int| 0 <= j < i ==> chunks@[j]@ == self.chunks@[j]@,
            decreases self.chunks@.len() - i,
        {
            let c = self.chunks[i].clone();
            chunks.push(c);
            i = i + 1;
        }
        proof {
            assert(path@ =~= self.path@);
            assert(chunk_views_of(chunks@) =~= chunk_views_of(self.chunks@));
        }
        FileNode { path, is_dir: self.is_dir, size: self.size, chunks }
    }
}

/// The mathematical values of a sequence of chunk references.
pub open spec fn chunk_views_of(chunks: Seq<ChunkRef>) -> Seq<ChunkRefV> {
    chunks.map_values(|c: ChunkRef| c@)
}

/// The mathematical values of a sequence of nodes.
pub open spec fn views_of(nodes: Seq<FileNode>) -> Seq<FileNodeV> {
    nodes.map_values(|n: FileNode| n@)
}

proof fn lemma_views_of_push(s: Seq<FileNode>, x: FileNode)
    ensures
        views_of(s.push(x)) =~= views_of(s).push(x@),
{
}

/// `p` names a direct child of directory path `dir`: below `dir`, with no
/// further separator in the remaining name. The root directory is the empty
/// path.
pub open spec fn is_child_path(p: Seq<u8>, dir: Seq<u8>) -> bool {
    if dir.len() == 0 {
        p.len() > 0 && !p.contains(SLASH)
    } else {
        &&& p.len() > dir.len() + 1
        &&& p.take(dir.len() as int) == dir
        &&& p[dir.len() as int] == SLASH
        &&& !p.skip(dir.len() + 1 as int).contains(SLASH)
    }
}

/// `p` lies strictly below `base` (at any depth); every path lies below the
/// root.
pub open spec fn is_descendant_path(p: Seq<u8>, base: Seq<u8>) -> bool {
    if base.len() == 0 {
        p.len() > 0
    } else {
        &&& p.len() > base.len() + 1
        &&& p.take(base.len() as int) == base
        &&& p[base.len() as int] == SLASH
    }
}

/// The nodes among `nodes` that are direct children of `dir` and have the
/// requested kind, in stored order, as mathematical values.
pub open spec fn select_children(nodes: Seq<FileNode>, dir: Seq<u8>, want_dir: bool) -> Seq<
    FileNodeV,
>
    decreases nodes.len(),
{
    if nodes.len() == 0 {
        Seq::empty()
    } else {
        let init = select_children(nodes.drop_last(), dir, want_dir);
        if is_child_path(nodes.last().path@, dir) && nodes.last().is_dir == want_dir {
            init.push(nodes.last()@)
        } else {
            init
        }
    }
}

/// The first `cap` descendants of `base` whose name matches the query, in
/// stored order: the search result with its count cap applied.
pub open spec fn capped_matches(nodes: Seq<FileNode>, base: Seq<u8>, query: Seq<u8>, cap: int) -> Seq<
    FileNodeV,
>
    decreases nodes.len(),
{
    if nodes.len() == 0 {
        Seq::empty()
    } else {
        let init = capped_matches(nodes.drop_last(), base, query, cap);
        if init.len() < cap && is_descendant_path(nodes.last().path@, base) && name_matches(
            spec_name_of(nodes.last().path@),
            query,
        ) {
            init.push(nodes.last()@)
        } else {
            init
        }
    }
}

/// `i` is the position of the last path separator in `p`.
pub open spec fn last_slash_at(p: Seq<u8>, i: int) -> bool {
    &&& 0 <= i < p.len()
    &&& p[i] == SLASH
    &&& forall|j: int| i < j < p.len() ==> p[j] != SLASH
}

/// The name of a path: everything after the last separator, or the whole
/// path when it has none.
pub open spec fn spec_name_of(p: Seq<u8>) -> Seq<u8> {
    if exists|i: int| last_slash_at(p, i) {
        p.skip((choose|i: int| last_slash_at(p, i)) + 1)
    } else {
        p
    }
}

/// The last separator position is unique.
pub proof fn lemma_last_slash_unique(p: Seq<u8>, i1: int, i2: int)
    requires
        last_slash_at(p, i1),
        last_slash_at(p, i2),
    ensures
        i1 == i2,
{
    if i1 < i2 {
        assert(p[i2] != SLASH);
    } else if i2 < i1 {
        assert(p[i1] != SLASH);
    }
}

/// Extracts the name of a path: everything after the last separator.
pub fn name_of_path(p: &Vec<u8>) -> (r: Vec<u8>)
    ensures
        r@ == spec_name_of(p@),
{
    let mut i: usize = p.len();
    while i > 0
        invariant
            i <= p@.len(),
            forall|j: int| i <= j < p@.len() ==> p@[j] != SLASH,
        decreases i,
    {
        if p[i - 1] == SLASH {
            proof {
                assert(last_slash_at(p@, i - 1));
                let i0 = choose|t: int| last_slash_at(p@, t);
                lemma_last_slash_unique(p@, i - 1, i0);
            }
            let mut r: Vec<u8> = Vec::new();
            let mut j: usize = i;
            proof {
                assert(r@ =~= p@.subrange(i as int, i as int));
            }
            while j < p.len()
                invariant
                    i <= j <= p@.len(),
                    r@ =~= p@.subrange(i as int, j as int),
                decreases p@.len() - j,
            {
                let b = p[j];
                r.push(b);
                j = j + 1;
                proof {
                    assert(r@ =~= p@.subrange(i as int, j as int));
                }
            }
            proof {
                assert(p@.subrange(i as int, p@.len() as int) =~= p@.skip(i as int));
            }
            return r;
        }
        i = i - 1;
    }
    proof {
        assert forall|t: int| !last_slash_at(p@, t) by {
            if last_slash_at(p@, t) {
                assert(p@[t] != SLASH);
            }
        };
    }
    let r = p.clone();
    proof {
        assert(r@ =~= p@);
    }
    r
}

/// Per-storage metadata: the visible file tree, and the chunk references
/// orphaned by failed uploads, kept for out-of-band reclamation.
pub struct FileTree {
    pub nodes: Vec<FileNode>,
    pub orphans: Vec<ChunkRef>,
}

impl FileTree {
    /// Well-formedness: paths are distinct; a file's chunk indices are the
    /// dense sequence 0..n-1; a directory carries no chunks.
    pub open spec fn wf(self) -> bool {
        &&& forall|i: int, j: int|
            0 <= i < j < self.nodes@.len() ==> self.nodes@[i].path@ != self.nodes@[j].path@
        &&& forall|i: int, k: int|
            0 <= i < self.nodes@.len() && 0 <= k < self.nodes@[i].chunks@.len()
                ==> #[trigger] self.nodes@[i].chunks@[k].index == k
        &&& forall|i: int|
            0 <= i < self.nodes@.len() && self.nodes@[i].is_dir ==> self.nodes@[i].chunks@.len()
                == 0
    }

    /// A node with this path exists.
    pub open spec fn has_path(self, path: Seq<u8>) -> bool {
        exists|i: int| 0 <= i < self.nodes@.len() && self.nodes@[i].path@ == path
    }

    /// The node with this path.
    pub open spec fn node_at(self, path: Seq<u8>) -> FileNode {
        self.nodes@[choose|i: int| 0 <= i < self.nodes@.len() && self.nodes@[i].path@ == path]
    }

    /// The path resolves to an existing directory; the root always exists.
    pub open spec fn has_dir(self, path: Seq<u8>) -> bool {
        path.len() == 0 || (self.has_path(path) && self.node_at(path).is_dir)
    }

    /// The children listing of a directory: directories first, then files,
    /// each group in stored order.
    pub open spec fn spec_children(self, dir: Seq<u8>) -> Seq<FileNodeV> {
        select_children(self.nodes@, dir, true) + select_children(self.nodes@, dir, false)
    }

    /// An empty tree.
    pub fn new() -> (r: FileTree)
        ensures
            r.wf(),
            r.nodes@.len() == 0,
            r.orphans@.len() == 0,
    {
        FileTree { nodes: Vec::new(), orphans: Vec::new() }
    }

    /// Finds the position of the node with the given path.
    fn find_node(&self, path: &Vec<u8>) -> (r: Option<usize>)
        requires
            self.wf(),
        ensures
            r matches Some(i) ==> 0 <= i < self.nodes@.len() && self.nodes@[i as int].path@
                == path@,
            r is Some <==> self.has_path(path@),
    {
        let mut i: usize = 0;
        while i < self.nodes.len()
            invariant
                i <= self.nodes@.len(),
                forall|j: int| 0 <= j < i ==> self.nodes@[j].path@ != path@,
            decreases self.nodes@.len() - i,
        {
            if bytes_eq(&self.nodes[i].path, path) {
                return Some(i);
            }
            i = i + 1;
        }
        None
    }

    /// Answers an info query: the node at the path, or `NotFound` exactly
    /// when the path resolves to no node.
    pub fn get_info(&self, path: &Vec<u8>) -> (r: Result<&FileNode, PentaractError>)
        requires
            self.wf(),
        ensures
            r is Ok <==> self.has_path(path@),
            r matches Ok(n) ==> n@ == self.node_at(path@)@,
            r matches Err(e) ==> e matches PentaractError::NotFound { path: p } && p@ == path@,
    {
        match self.find_node(path) {
            Some(i) => {
                proof {
                    let j = choose|j: int|
                        0 <= j < self.nodes@.len() && self.nodes@[j].path@ == path@;
                    assert(j == i as int);
                }
                Ok(&self.nodes[i])
            },
            None => Err(PentaractError::NotFound { path: path.clone() }),
        }
    }

    /// Lists the children of a directory, directories before files, each
    /// group in stored order — an ordering that depends on the tree alone,
    /// so an unchanged tree always lists identically. Fails with `NotFound`
    /// exactly when the path does not resolve to an existing directory.
    pub fn list_tree(&self, path: &Vec<u8>) -> (r: Result<Vec<FileNode>, PentaractError>)
        requires
            self.wf(),
        ensures
            r is Ok <==> self.has_dir(path@),
            r matches Ok(v) ==> views_of(v@) == self.spec_children(path@),
            r matches Err(e) ==> e matches PentaractError::NotFound { path: p } && p@ == path@,
    {
        if path.len() > 0 {
            match self.find_node(path) {
                Some(i) => {
                    proof {
                        let j = choose|j: int|
                            0 <= j < self.nodes@.len() && self.nodes@[j].path@ == path@;
                        assert(j == i as int);
                    }
                    if !self.nodes[i].is_dir {
                        return Err(PentaractError::NotFound { path: path.clone() });
                    }
                },
                None => {
                    return Err(PentaractError::NotFound { path: path.clone() });
                },
            }
        }
        let dirs = self.collect_children(path, true);
        let files = self.collect_children(path, false);
        let mut out = dirs;
        let ghost dirs_views = views_of(out@);
        let mut k: usize = 0;
        while k < files.len()
            invariant
                k <= files@.len(),
                views_of(out@) =~= dirs_views + views_of(files@).take(k as int),
            decreases files@.len() - k,
        {
            let ghost prev_out = out@;
            let f = files[k].clone();
            out.push(f);
            k = k + 1;
            proof {
                lemma_views_of_push(prev_out, f);
                assert(views_of(files@)[k - 1] == files@[k - 1]@);
                assert(views_of(out@) =~= dirs_views + views_of(files@).take(k as int));
            }
        }
        proof {
            assert(views_of(files@).take(files@.len() as int) =~= views_of(files@));
            assert(views_of(out@) =~= self.spec_children(path@));
        }
        Ok(out)
    }

    /// Collects the direct children of `dir` of one kind, in stored order.
    fn collect_children(&self, dir: &Vec<u8>, want_dir: bool) -> (r: Vec<FileNode>)
        requires
            self.wf(),
        ensures
            views_of(r@) == select_children(self.nodes@, dir@, want_dir),
    {
        let mut r: Vec<FileNode> = Vec::new();
        let mut i: usize = 0;
        proof {
            assert(self.nodes@.take(0) =~= Seq::<FileNode>::empty());
            assert(views_of(r@) =~= select_children(self.nodes@.take(0), dir@, want_dir));
        }
        while i < self.nodes.len()
            invariant
                self.wf(),
                i <= self.nodes@.len(),
                views_of(r@) =~= select_children(self.nodes@.take(i as int), dir@, want_dir),
            decreases self.nodes@.len() - i,
        {
            let ghost prev = r@;
            let is_child = self.is_child_here(i, dir);
            let picked = is_child && self.nodes[i].is_dir == want_dir;
            if picked {
                let n = self.nodes[i].clone();
                r.push(n);
                proof {
                    lemma_views_of_push(prev, r@.last());
                }
            }
            i = i + 1;
            proof {
                let taken = self.nodes@.take(i as int);
                assert(taken.drop_last() =~= self.nodes@.take(i - 1));
                assert(taken.last() == self.nodes@[i - 1]);
                assert(select_children(taken, dir@, want_dir) == (
                if is_child_path(taken.last().path@, dir@) && taken.last().is_dir == want_dir {
                    select_children(self.nodes@.take(i - 1), dir@, want_dir).push(taken.last()@)
                } else {
                    select_children(self.nodes@.take(i - 1), dir@, want_dir)
                }));
                assert(views_of(r@) =~= select_children(taken, dir@, want_dir));
            }
        }
        proof {
            assert(self.nodes@.take(i as int) =~= self.nodes@);
        }
        r
    }

    /// Decides whether the node at position `i` is a direct child of `dir`.
    fn is_child_here(&self, i: usize, dir: &Vec<u8>) -> (r: bool)
        requires
            i < self.nodes@.len(),
        ensures
            r == is_child_path(self.nodes@[i as int].path@, dir@),
    {
        let p = &self.nodes[i].path;
        if dir.len() == 0 {
            if p.len() == 0 {
                return false;
            }
            let found = crate::bytesutil::find_byte_from(p, 0, SLASH);
            proof {
                if p@.contains(SLASH) {
                    let t = choose|t: int| 0 <= t < p@.len() && p@[t] == SLASH;
                    crate::bytesutil::lemma_exists_first_byte(p@, 0, SLASH, t);
                }
                if exists|e: int| crate::bytesutil::first_byte_at(p@, 0, SLASH, e) {
                    let e = choose|e: int| crate::bytesutil::first_byte_at(p@, 0, SLASH, e);
                    assert(p@[e] == SLASH);
                    assert(p@.contains(SLASH));
                }
            }
            return found.is_none();
        }
        if p.len() < 2 || p.len() - 2 < dir.len() {
            return false;
        }
        let mut j: usize = 0;
        while j < dir.len()
            invariant
                p@.len() > dir@.len() + 1,
                j <= dir@.len(),
                p == &self.nodes@[i as int].path,
                forall|t: int| 0 <= t < j ==> p@[t] == dir@[t],
            decreases dir@.len() - j,
        {
            if p[j] != dir[j] {
                proof {
                    assert(!is_child_path(p@, dir@)) by {
                        if is_child_path(p@, dir@) {
                            assert(p@.take(dir@.len() as int)[j as int] == dir@[j as int]);
                        }
                    };
                }
                return false;
            }
            j = j + 1;
        }
        proof {
            assert(p@.take(dir@.len() as int) =~= dir@);
        }
        if p[dir.len()] != SLASH {
            return false;
        }
        let found = crate::bytesutil::find_byte_from(p, dir.len() + 1, SLASH);
        proof {
            let s: int = dir@.len() as int + 1;
            let tail = p@.skip(s as int);
            if tail.contains(SLASH) {
                let t = choose|t: int| 0 <= t < tail.len() && tail[t] == SLASH;
                crate::bytesutil::lemma_exists_first_byte(p@, s, SLASH, s + t);
            }
            if exists|e: int| crate::bytesutil::first_byte_at(p@, s, SLASH, e) {
                let e = choose|e: int| crate::bytesutil::first_byte_at(p@, s, SLASH, e);
                assert(tail[e - s] == SLASH);
                assert(tail.contains(SLASH));
            }
        }
        found.is_none()
    }

    /// Searches the descendants of `base` for names matching the query
    /// (ASCII case-insensitive substring), in stored order, with the result
    /// count capped at `cap`.
    pub fn search(&self, base: &Vec<u8>, query: &Vec<u8>, cap: usize) -> (r: Vec<FileNode>)
        requires
            self.wf(),
        ensures
            views_of(r@) == capped_matches(self.nodes@, base@, query@, cap as int),
    {
        let mut r: Vec<FileNode> = Vec::new();
        let mut i: usize = 0;
        proof {
            assert(self.nodes@.take(0) =~= Seq::<FileNode>::empty());
            assert(views_of(r@) =~= capped_matches(self.nodes@.take(0), base@, query@, cap as int));
        }
        while i < self.nodes.len()
            invariant
                self.wf(),
                i <= self.nodes@.len(),
                r@.len() <= cap,
                r@.len() as int == capped_matches(
                    self.nodes@.take(i as int),
                    base@,
                    query@,
                    cap as int,
                ).len(),
                views_of(r@) =~= capped_matches(
                    self.nodes@.take(i as int),
                    base@,
                    query@,
                    cap as int,
                ),
            decreases self.nodes@.len() - i,
        {
            let ghost prev = r@;
            let is_desc = self.is_descendant_here(i, base);
            let name = name_of_path(&self.nodes[i].path);
            let hit = is_desc && matches_query(&name, query);
            if hit && r.len() < cap {
                let n = self.nodes[i].clone();
                r.push(n);
                proof {
                    lemma_views_of_push(prev, r@.last());
                }
            }
            i = i + 1;
            proof {
                let taken = self.nodes@.take(i as int);
                assert(taken.drop_last() =~= self.nodes@.take(i - 1));
                assert(taken.last() == self.nodes@[i - 1]);
                let sel_prev = capped_matches(self.nodes@.take(i - 1), base@, query@, cap as int);
                assert(views_of(r@) =~= capped_matches(taken, base@, query@, cap as int));
            }
        }
        proof {
            assert(self.nodes@.take(i as int) =~= self.nodes@);
        }
        r
    }

    /// Decides whether the node at position `i` lies below `base`.
    fn is_descendant_here(&self, i: usize, base: &Vec<u8>) -> (r: bool)
        requires
            i < self.nodes@.len(),
        ensures
            r == is_descendant_path(self.nodes@[i as int].path@, base@),
    {
        let p = &self.nodes[i].path;
        if base.len() == 0 {
            return p.len() > 0;
        }
        if p.len() < 2 || p.len() - 2 < base.len() {
            return false;
        }
        let mut j: usize = 0;
        while j < base.len()
            invariant
                p@.len() > base@.len() + 1,
                j <= base@.len(),
                p == &self.nodes@[i as int].path,
                forall|t: int| 0 <= t < j ==> p@[t] == base@[t],
            decreases base@.len() - j,
        {
            if p[j] != base[j] {
                proof {
                    assert(!is_descendant_path(p@, base@)) by {
                        if is_descendant_path(p@, base@) {
                            assert(p@.take(base@.len() as int)[j as int] == base@[j as int]);
                        }
                    };
                }
                return false;
            }
            j = j + 1;
        }
        proof {
            assert(p@.take(base@.len() as int) =~= base@);
        }
        p[base.len()] == SLASH
    }

    /// Answers a download request with the plan to execute it: the file's
    /// chunk references in index order. Fails with `NotFound` exactly when
    /// the path resolves to no node, and with `InvalidOperation` exactly
    /// when it resolves to a directory — in that case no chunk is ever
    /// fetched.
    pub fn download_plan(&self, path: &Vec<u8>) -> (r: Result<Vec<ChunkRef>, PentaractError>)
        requires
            self.wf(),
        ensures
            r is Ok <==> self.has_path(path@) && !self.node_at(path@).is_dir,
            r matches Ok(refs) ==> {
                &&& chunk_views_of(refs@) == self.node_at(path@)@.chunks
                &&& forall|k: int| 0 <= k < refs@.len() ==> #[trigger] refs@[k].index == k
            },
            r matches Err(e) ==> match e {
                PentaractError::NotFound { path: p } => p@ == path@ && !self.has_path(path@),
                PentaractError::InvalidOperation { .. } => self.has_path(path@) && self.node_at(
                    path@,
                ).is_dir,
                _ => false,
            },
    {
        match self.find_node(path) {
            None => Err(PentaractError::NotFound { path: path.clone() }),
            Some(i) => {
                proof {
                    let j = choose|j: int|
                        0 <= j < self.nodes@.len() && self.nodes@[j].path@ == path@;
                    assert(j == i as int);
                }
                if self.nodes[i].is_dir {
                    return Err(
                        PentaractError::InvalidOperation {
                            reason: path.clone(),
                        },
                    );
                }
                let node = &self.nodes[i];
                let mut refs: Vec<ChunkRef> = Vec::new();
                let mut k: usize = 0;
                while k < node.chunks.len()
                    invariant
                        node == &self.nodes@[i as int],
                        i < self.nodes@.len(),
                        k <= node.chunks@.len(),
                        refs@.len() == k,
                        forall|t: int| 0 <= t < k ==> refs@[t]@ == node.chunks@[t]@,
                    decreases node.chunks@.len() - k,
                {
                    let c = node.chunks[k].clone();
                    refs.push(c);
                    k = k + 1;
                }
                proof {
                    assert(chunk_views_of(refs@) =~= self.node_at(path@)@.chunks);
                    assert forall|t: int| 0 <= t < refs@.len() implies #[trigger] refs@[t].index
                        == t by {
                        assert(refs@[t]@ == self.nodes@[i as int].chunks@[t]@);
                    };
                }
                Ok(refs)
            },
        }
    }

    /// Adds an empty directory node. Fails with `InvalidOperation` exactly
    /// when the path is already taken.
    pub fn add_directory(&mut self, path: Vec<u8>) -> (r: Result<(), PentaractError>)
        requires
            old(self).wf(),
        ensures
            final(self).wf(),
            r is Ok <==> !old(self).has_path(path@),
            r is Ok ==> views_of(final(self).nodes@) == views_of(old(self).nodes@).push(
                FileNodeV { path: path@, is_dir: true, size: 0, chunks: Seq::empty() },
            ) && final(self).orphans == old(self).orphans,
            r is Err ==> *final(self) == *old(self),
            r matches Err(e) ==> e is InvalidOperation,
    {
        match self.find_node(&path) {
            Some(_) => Err(PentaractError::InvalidOperation { reason: path }),
            None => {
                let node = FileNode { path, is_dir: true, size: 0, chunks: Vec::new() };
                proof {
                    assert(node@.chunks =~= Seq::<ChunkRefV>::empty());
                }
                self.nodes.push(node);
                proof {
                    assert(views_of(final(self).nodes@) =~= views_of(old(self).nodes@).push(
                        FileNodeV {
                            path: final(self).nodes@.last().path@,
                            is_dir: true,
                            size: 0,
                            chunks: Seq::empty(),
                        },
                    ));
                }
                Ok(())
            },
        }
    }
}

/// An upload in progress: the split chunks of the pending file and the
/// chunk references recorded so far, one per successfully stored chunk. The
/// file becomes visible in the tree only when every chunk is recorded and
/// the session is committed; an aborted session leaves the tree unchanged.
pub struct UploadSession {
    pub path: Vec<u8>,
    pub chunks: Vec<Vec<u8>>,
    pub refs: Vec<ChunkRef>,
    pub total: usize,
}

impl UploadSession {
    /// Well-formedness: no more refs than chunks, and recorded indices are
    /// the dense sequence 0..refs.len()-1.
    pub open spec fn wf(self) -> bool {
        &&& self.refs@.len() <= self.chunks@.len()
        &&& forall|k: int| 0 <= k < self.refs@.len() ==> #[trigger] self.refs@[k].index == k
    }

    /// Splits the bytes at the configured chunk size and opens a session
    /// with no chunk stored yet.
    pub fn begin(path: Vec<u8>, data: &Vec<u8>, chunk_size: usize) -> (s: UploadSession)
        requires
            chunk_size >= 1,
        ensures
            s.wf(),
            s.path == path,
            s.chunks.deep_view() == spec_split(data@, chunk_size as int),
            s.refs@.len() == 0,
            s.total == data@.len(),
    {
        let chunks = crate::chunks::split_into_chunks(data, chunk_size);
        let total = data.len();
        UploadSession { path, chunks, refs: Vec::new(), total }
    }

    /// The chunk that must be stored next, in index order; nothing when
    /// every chunk is stored.
    pub fn next_chunk(&self) -> (r: Option<&Vec<u8>>)
        requires
            self.wf(),
        ensures
            r is Some <==> self.refs@.len() < self.chunks@.len(),
            r matches Some(c) ==> c@ == self.chunks@[self.refs@.len() as int]@,
    {
        if self.refs.len() < self.chunks.len() {
            Some(&self.chunks[self.refs.len()])
        } else {
            None
        }
    }

    /// Records the remote object id the backend assigned to the next chunk.
    pub fn record_chunk(&mut self, remote_id: Vec<u8>, worker_id: u64)
        requires
            old(self).wf(),
            old(self).refs@.len() < old(self).chunks@.len(),
        ensures
            final(self).wf(),
            final(self).path == old(self).path,
            final(self).chunks == old(self).chunks,
            final(self).total == old(self).total,
            final(self).refs@.len() == old(self).refs@.len() + 1,
            chunk_views_of(final(self).refs@) == chunk_views_of(old(self).refs@).push(
                ChunkRefV {
                    remote_id: remote_id@,
                    index: old(self).refs@.len() as usize,
                    worker_id,
                    size: old(self).chunks@[old(self).refs@.len() as int]@.len() as u64,
                },
            ),
    {
        let idx = self.refs.len();
        let size = self.chunks[idx].len() as u64;
        let ghost prev = self.refs@;
        self.refs.push(ChunkRef { remote_id, index: idx, worker_id, size });
        proof {
            assert(chunk_views_of(self.refs@) =~= chunk_views_of(prev).push(
                self.refs@.last()@,
            ));
        }
    }

    /// Every chunk has been stored and recorded.
    pub fn is_complete(&self) -> (r: bool)
        ensures
            r == (self.refs@.len() == self.chunks@.len()),
    {
        self.refs.len() == self.chunks.len()
    }

    /// Publishes the uploaded file as a node of the tree. Only a fully
    /// recorded session can be committed, so no partially-stored file is
    /// ever visible. Fails with `InvalidOperation` exactly when the path is
    /// already taken, leaving the tree unchanged.
    pub fn commit(self, tree: &mut FileTree) -> (r: Result<(), PentaractError>)
        requires
            old(tree).wf(),
            self.wf(),
            self.refs@.len() == self.chunks@.len(),
        ensures
            final(tree).wf(),
            r is Ok <==> !old(tree).has_path(self.path@),
            r is Ok ==> views_of(final(tree).nodes@) == views_of(old(tree).nodes@).push(
                FileNodeV {
                    path: self.path@,
                    is_dir: false,
                    size: self.total as u64,
                    chunks: chunk_views_of(self.refs@),
                },
            ) && final(tree).orphans == old(tree).orphans,
            r is Err ==> *final(tree) == *old(tree),
            r matches Err(e) ==> e is InvalidOperation,
    {
        match tree.find_node(&self.path) {
            Some(_) => Err(PentaractError::InvalidOperation { reason: self.path }),
            None => {
                let total = self.total as u64;
                let node = FileNode {
                    path: self.path,
                    is_dir: false,
                    size: total,
                    chunks: self.refs,
                };
                tree.nodes.push(node);
                proof {
                    assert(views_of(final(tree).nodes@) =~= views_of(old(tree).nodes@).push(
                        final(tree).nodes@.last()@,
                    ));
                }
                Ok(())
            },
        }
    }

    /// Abandons the upload after an irrecoverable chunk failure: the chunk
    /// references stored so far become orphans awaiting deferred
    /// reclamation, the visible tree is untouched, and the error reports how
    /// many chunks were stored and the index at which the upload failed.
    pub fn abort(self, tree: &mut FileTree) -> (e: PentaractError)
        requires
            old(tree).wf(),
            self.wf(),
        ensures
            final(tree).wf(),
            final(tree).nodes == old(tree).nodes,
            chunk_views_of(final(tree).orphans@) == chunk_views_of(old(tree).orphans@)
                + chunk_views_of(self.refs@),
            e matches PentaractError::PartialUploadError { uploaded, failed_at } && uploaded
                == self.refs@.len() && failed_at == self.refs@.len(),
    {
        let uploaded = self.refs.len();
        let mut refs = self.refs;
        tree.orphans.append(&mut refs);
        proof {
            assert(chunk_views_of(final(tree).orphans@) =~= chunk_views_of(
                old(tree).orphans@,
            ) + chunk_views_of(self.refs@));
        }
        PentaractError::PartialUploadError { uploaded, failed_at: uploaded }
    }
}

/// Atomicity of uploads: a failed upload never changes the visible tree —
/// `abort` keeps the node sequence as it was — so a path that was absent
/// before the attempt is still absent from info, listing and download
/// queries afterwards.
pub proof fn lemma_aborted_upload_invisible(t0: FileTree, t1: FileTree, path: Seq<u8>)
    requires
        t1.nodes@ == t0.nodes@,
    ensures
        t1.has_path(path) == t0.has_path(path),
        t1.has_dir(path) == t0.has_dir(path),
        t1.spec_children(path) == t0.spec_children(path),
{
}

/// Determinism of listing: the children of a directory are a function of
/// the tree alone, so repeated listings of an unchanged tree return the
/// identical ordered result.
pub proof fn lemma_list_tree_deterministic(
    t: FileTree,
    path: Seq<u8>,
    r1: Seq<FileNodeV>,
    r2: Seq<FileNodeV>,
)
    requires
        r1 == t.spec_children(path),
        r2 == t.spec_children(path),
    ensures
        r1 == r2,
{
}

} // verus!
