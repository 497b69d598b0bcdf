//! The object store: each content is kept once, under its digest, in a
//! two-level layout `objects/<first two digest characters>/<the rest>`.
use crate::hashing::digest_of;
use crate::locator::join_path;
use vstd::prelude::*;

verus! {

/// Where the object with `digest` lives under the objects directory
/// `objects_root`: the first two characters name a shard directory and the
/// rest the file inside it.
pub open spec fn object_location(objects_root: Seq<char>, digest: Seq<char>) -> Seq<char> {
    join_path(
        join_path(objects_root, digest.subrange(0, 2)),
        digest.subrange(2, digest.len() as int),
    )
}

/// The stored files after putting `content` at `path`: an object that is
/// already there is kept as it is, since equal digests mean equal content.
pub open spec fn stored_after_put(files: Map<Seq<char>, Seq<u8>>, path: Seq<char>, content: Seq<u8>) -> Map<
    Seq<char>,
    Seq<u8>,
> {
    if files.contains_key(path) {
        files
    } else {
        files.insert(path, content)
    }
}

/// What storing one object takes: make sure the shard directory exists, then
/// write the object file unless it is already there.
pub struct PutPlan {
    pub prefix_dir: String,
    pub object_path: String,
    pub write: bool,
}

/// The stored files after carrying out `plan` with `content`.
pub open spec fn apply_put(files: Map<Seq<char>, Seq<u8>>, plan: PutPlan, content: Seq<u8>) -> Map<
    Seq<char>,
    Seq<u8>,
> {
    if plan.write {
        files.insert(plan.object_path@, content)
    } else {
        files
    }
}

/// The objects directory of a repository.
pub struct ObjectStore {
    objects_root: String,
}

impl ObjectStore {
    pub closed spec fn root(&self) -> Seq<char> {
        self.objects_root@
    }

    /// The store of the repository at `root_path`: its `.kvc/objects`
    /// directory.
    pub fn new(root_path: &str) -> (r: ObjectStore)
        ensures
            r.root() == join_path(join_path(root_path@, ".kvc"@), "objects"@),
    {
        let mut p = root_path.to_owned();
        p.append("/");
        p.append(".kvc");
        p.append("/");
        p.append("objects");
        proof {
            reveal_strlit("/");
        }
        assert(p@ =~= join_path(join_path(root_path@, ".kvc"@), "objects"@));
        ObjectStore { objects_root: p }
    }

    /// The objects directory.
    pub fn objects_root(&self) -> (r: &String)
        ensures
            r@ == self.root(),
    {
        &self.objects_root
    }

    /// The shard directory that holds the object with `digest`.
    pub fn prefix_dir(&self, digest: &str) -> (r: String)
        requires
            digest@.len() >= 2,
        ensures
            r@ == join_path(self.root(), digest@.subrange(0, 2)),
    {
        let (prefix, _suffix) = crate::hashing::segment_hash(digest);
        let mut p = self.objects_root.clone();
        p.append("/");
        p.append(prefix);
        proof {
            reveal_strlit("/");
        }
        assert(p@ =~= join_path(self.root(), digest@.subrange(0, 2)));
        p
    }

    /// The file that holds the object with `digest`.
    pub fn object_path(&self, digest: &str) -> (r: String)
        requires
            digest@.len() >= 2,
        ensures
            r@ == object_location(self.root(), digest@),
    {
        let (_prefix, suffix) = crate::hashing::segment_hash(digest);
        let mut p = self.prefix_dir(digest);
        p.append("/");
        p.append(suffix);
        proof {
            reveal_strlit("/");
        }
        assert(p@ =~= object_location(self.root(), digest@));
        p
    }

    /// How to store the object with `digest`, given whether its file is
    /// already there: the shard directory is always ensured, and the file is
    /// written only when it is missing.
    pub fn put(&self, digest: &str, object_exists: bool) -> (r: PutPlan)
        requires
            digest@.len() >= 2,
        ensures
            r.prefix_dir@ == join_path(self.root(), digest@.subrange(0, 2)),
            r.object_path@ == object_location(self.root(), digest@),
            r.write == !object_exists,
    {
        PutPlan {
            prefix_dir: self.prefix_dir(digest),
            object_path: self.object_path(digest),
            write: !object_exists,
        }
    }
}

/// Storing a content twice under its digest leaves the same files as storing
/// it once: exactly one more object than before at most, found at its
/// location, and a repeated put changes nothing.
pub proof fn lemma_put_idempotent(
    files: Map<Seq<char>, Seq<u8>>,
    objects_root: Seq<char>,
    content: Seq<u8>,
    first: PutPlan,
    second: PutPlan,
)
    requires
        first.object_path@ == object_location(objects_root, digest_of(content)),
        first.write == !files.contains_key(first.object_path@),
        second.object_path@ == first.object_path@,
        second.write == !apply_put(files, first, content).contains_key(second.object_path@),
    ensures
        apply_put(files, first, content) == stored_after_put(files, first.object_path@, content),
        apply_put(apply_put(files, first, content), second, content) == apply_put(
            files,
            first,
            content,
        ),
        apply_put(files, first, content).contains_key(first.object_path@),
        apply_put(files, first, content).dom() == files.dom().insert(first.object_path@),
{
    let once = apply_put(files, first, content);
    if files.contains_key(first.object_path@) {
        assert(files.dom().insert(first.object_path@) =~= files.dom());
    } else {
        assert(once.dom() =~= files.dom().insert(first.object_path@));
    }
}

} // verus!
