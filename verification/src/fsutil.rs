//! Paths: the directory that holds a file, where a chain of links leads, and how a
//! file is replaced.
//!
//! Paths are text here, with `/` between their components.

use crate::text::{chars_of, opt_text, same, texts};
use vstd::prelude::*;

verus! {

/// How many links a chain may have before it is not followed further.
pub const MAX_HOPS: usize = 8;

/// The path without its final component, as `std::path::Path::parent` has it.
pub uninterp spec fn std_parent(path: Seq<char>) -> Option<Seq<char>>;

/// The final component of the path, as `std::path::Path::file_name` has it.
pub uninterp spec fn std_file_name(path: Seq<char>) -> Option<Seq<char>>;

/// `std::path::Path::parent`: the path without its final component, if there is
/// one.
#[verifier::external_body]
pub(crate) fn path_parent(path: &str) -> (r: Option<String>)
    ensures
        match r {
            Some(p) => std_parent(path@) == Some(p@),
            None => std_parent(path@) is None,
        },
{
    std::path::Path::new(path).parent().map(|p| p.to_string_lossy().into_owned())
}

/// `std::path::Path::file_name`: the final component of the path, if it is a name.
#[verifier::external_body]
pub(crate) fn path_file_name(path: &str) -> (r: Option<String>)
    ensures
        match r {
            Some(p) => std_file_name(path@) == Some(p@),
            None => std_file_name(path@) is None,
        },
{
    std::path::Path::new(path).file_name().map(|p| p.to_string_lossy().into_owned())
}

/// The components of the path, as `std::path::Path::components` has them.
pub uninterp spec fn std_components(path: Seq<char>) -> Seq<Seq<char>>;

/// `std::path::Path::components`: the components of the path, without the separators.
/// Repeated separators, and a `.` that is not the first component, do not show.
#[verifier::external_body]
fn path_components(path: &str) -> (r: Vec<String>)
    ensures
        texts(r@) == std_components(path@),
{
    let parts = std::path::Path::new(path).components();
    parts.map(|c| c.as_os_str().to_string_lossy().into_owned()).collect()
}

/// Whether two paths are the same: their components are.
pub open spec fn same_path(a: Seq<char>, b: Seq<char>) -> bool {
    std_components(a) == std_components(b)
}

/// Whether two paths are the same: their components are.
pub fn paths_match(a: &str, b: &str) -> (r: bool)
    ensures
        r == same_path(a@, b@),
{
    let p = path_components(a);
    let q = path_components(b);
    if p.len() != q.len() {
        proof {
            assert(texts(p@).len() != texts(q@).len());
        }
        return false;
    }
    let mut i: usize = 0;
    while i < p.len()
        invariant
            i <= p@.len(),
            p@.len() == q@.len(),
            texts(p@) == std_components(a@),
            texts(q@) == std_components(b@),
            forall|k: int| 0 <= k < i ==> (#[trigger] texts(p@)[k]) == texts(q@)[k],
        decreases p@.len() - i,
    {
        if !same(p[i].as_str(), q[i].as_str()) {
            proof {
                assert(texts(p@)[i as int] != texts(q@)[i as int]);
            }
            return false;
        }
        i += 1;
    }
    proof {
        assert(texts(p@) =~= texts(q@));
    }
    true
}

/// Whether a path starts at the root.
pub open spec fn is_absolute(path: Seq<char>) -> bool {
    path.len() > 0 && path[0] == '/'
}

/// Whether a path starts at the root.
pub fn absolute(path: &str) -> (r: bool)
    ensures
        r == is_absolute(path@),
{
    let v = chars_of(path);
    v.len() > 0 && v[0] == '/'
}

/// `path` taken from the directory `base`.
pub open spec fn joined(base: Seq<char>, path: Seq<char>) -> Seq<char> {
    if is_absolute(path) {
        path
    } else if base.len() == 0 || base.last() == '/' {
        base + path
    } else {
        base + "/"@ + path
    }
}

/// `path` taken from the directory `base`.
pub fn join_path(base: &str, path: &str) -> (r: String)
    ensures
        r@ == joined(base@, path@),
{
    if absolute(path) {
        return path.to_string();
    }
    let v = chars_of(base);
    let mut r = base.to_string();
    if !(v.len() == 0 || v[v.len() - 1] == '/') {
        r.append("/");
    }
    r.append(path);
    r
}

/// The directory to use for a parent: an empty one, or none, is the current
/// directory.
pub open spec fn dir_of(parent: Option<Seq<char>>) -> Seq<char> {
    match parent {
        Some(p) if p.len() > 0 => p,
        _ => "."@,
    }
}

/// The directory to use for a parent: an empty one, or none, is the current
/// directory.
pub fn dir_or_dot(parent: Option<String>) -> (r: String)
    ensures
        r@ == dir_of(match parent {
            Some(p) => Some(p@),
            None => None,
        }),
{
    match parent {
        Some(p) => {
            if p.as_str().is_empty() {
                ".".to_string()
            } else {
                p
            }
        },
        None => ".".to_string(),
    }
}

/// The directory holding `path`, falling back to the current directory.
pub fn parent_dir(path: &str) -> (r: String)
    ensures
        r@ == dir_of(std_parent(path@)),
{
    dir_or_dot(path_parent(path))
}

/// Where a link in the directory `parent` that names `target` leads.
pub open spec fn link_leads_to(parent: Option<Seq<char>>, target: Seq<char>) -> Seq<char> {
    if is_absolute(target) {
        target
    } else {
        joined(
            match parent {
                Some(p) => p,
                None => "."@,
            },
            target,
        )
    }
}

/// Where a link in the directory `parent` that names `target` leads.
pub fn next_link(parent: Option<String>, target: String) -> (r: String)
    ensures
        r@ == link_leads_to(
            match parent {
                Some(p) => Some(p@),
                None => None,
            },
            target@,
        ),
{
    if absolute(target.as_str()) {
        return target;
    }
    match parent {
        Some(p) => join_path(p.as_str(), target.as_str()),
        None => join_path(".", target.as_str()),
    }
}

/// Where a chain of links leads from `path`, given what each link along it names;
/// it ends where something is no link, and after [`MAX_HOPS`] links.
pub open spec fn chain_end(path: Seq<char>, links: Seq<Seq<char>>) -> Seq<char>
    decreases links.len(),
{
    if links.len() == 0 {
        path
    } else {
        link_leads_to(std_parent(chain_end(path, links.drop_last())), links.last())
    }
}

/// A walk along a chain of links. The caller reads the link at [`LinkWalk::at`] and
/// hands over what it names, until [`LinkWalk::follow`] says that the walk is over.
pub struct LinkWalk {
    current: String,
    hops: usize,
    seen: Ghost<(Seq<char>, Seq<Seq<char>>)>,
}

impl LinkWalk {
    /// Where the walk started.
    pub closed spec fn start(&self) -> Seq<char> {
        self.seen@.0
    }

    /// What the links followed so far name.
    pub closed spec fn links(&self) -> Seq<Seq<char>> {
        self.seen@.1
    }

    /// What every walk keeps.
    pub closed spec fn wf(&self) -> bool {
        &&& self.hops == self.links().len()
        &&& self.hops <= MAX_HOPS
        &&& self.current@ == chain_end(self.start(), self.links())
    }

    /// A walk from `path`.
    pub fn new(path: &str) -> (r: LinkWalk)
        ensures
            r.wf(),
            r.start() == path@,
            r.links() == Seq::<Seq<char>>::empty(),
    {
        LinkWalk { current: path.to_string(), hops: 0, seen: Ghost((path@, Seq::empty())) }
    }

    /// Where the walk has come to.
    pub fn at(&self) -> (r: &str)
        requires
            self.wf(),
        ensures
            r@ == chain_end(self.start(), self.links()),
    {
        self.current.as_str()
    }

    /// Takes what the link at [`LinkWalk::at`] names, or `None` where there is no
    /// link to read there. Returns whether the next link is to be read.
    pub fn follow(&mut self, link: Option<String>) -> (more: bool)
        requires
            old(self).wf(),
            old(self).links().len() < MAX_HOPS,
        ensures
            final(self).wf(),
            final(self).start() == old(self).start(),
            match link {
                Some(target) => final(self).links() == old(self).links().push(target@),
                None => final(self).links() == old(self).links(),
            },
            more == (link is Some && final(self).links().len() < MAX_HOPS),
    {
        match link {
            None => false,
            Some(target) => {
                let ghost links = self.links().push(target@);
                proof {
                    assert(links.drop_last() =~= self.links());
                }
                let parent = path_parent(self.current.as_str());
                self.current = next_link(parent, target);
                self.hops = self.hops + 1;
                self.seen = Ghost((self.seen@.0, links));
                self.hops < MAX_HOPS
            },
        }
    }
}

/// Whether `read` answers the link at the path `at` with `out`.
pub open spec fn link_read<F: Fn(&str) -> Option<String>>(
    read: F,
    at: Seq<char>,
    out: Option<Seq<char>>,
) -> bool {
    exists|p: &str, r: Option<String>| #[trigger]
        call_ensures(read, (p,), r) && p@ == at && opt_text(r) == out
}

/// Whether `links` are what `read` answers along the chain from `path`, up to the first
/// that is no link or to the limit.
pub open spec fn chain_read<F: Fn(&str) -> Option<String>>(
    read: F,
    path: Seq<char>,
    links: Seq<Seq<char>>,
) -> bool {
    &&& links.len() <= MAX_HOPS
    &&& forall|i: int|
        0 <= i < links.len() ==> link_read(
            read,
            #[trigger] chain_end(path, links.take(i)),
            Some(links[i]),
        )
    &&& links.len() < MAX_HOPS ==> link_read(read, chain_end(path, links), None)
}

/// Follows a symlink to the file it ultimately names, resolving each relative hop against
/// the directory of the link being followed. `read_link` gives what the link at a path
/// names, or `None` where there is no link to read. A plain path is returned unchanged.
pub fn resolve_link_target<F: Fn(&str) -> Option<String>>(path: &str, read_link: F) -> (r: String)
    requires
        forall|p: &str| #[trigger] call_requires(read_link, (p,)),
    ensures
        exists|links: Seq<Seq<char>>| #[trigger]
            chain_read(read_link, path@, links) && r@ == chain_end(path@, links),
{
    let mut walk = LinkWalk::new(path);
    let mut more = true;
    while more
        invariant
            walk.wf(),
            walk.start() == path@,
            forall|p: &str| #[trigger] call_requires(read_link, (p,)),
            more ==> walk.links().len() < MAX_HOPS,
            forall|i: int|
                0 <= i < walk.links().len() ==> link_read(
                    read_link,
                    #[trigger] chain_end(path@, walk.links().take(i)),
                    Some(walk.links()[i]),
                ),
            !more ==> chain_read(read_link, path@, walk.links()),
        decreases MAX_HOPS - walk.links().len() + (if more {
            1int
        } else {
            0
        }),
    {
        let ghost was = walk.links();
        let at = walk.at();
        let link = read_link(at);
        let ghost seen = opt_text(link);
        proof {
            assert(call_ensures(read_link, (at,), link));
            assert(link_read(read_link, chain_end(path@, was), seen));
        }
        more = walk.follow(link);
        proof {
            let now = walk.links();
            assert forall|i: int| 0 <= i < now.len() implies link_read(
                read_link,
                #[trigger] chain_end(path@, now.take(i)),
                Some(now[i]),
            ) by {
                if i < was.len() {
                    assert(now.take(i) =~= was.take(i));
                    assert(now[i] == was[i]);
                } else {
                    assert(now.take(i) =~= was);
                }
            }
        }
    }
    walk.at().to_string()
}

/// How a file is replaced: `contents` goes to `temp`, which is then renamed to
/// `target`; if either fails, `temp` is removed.
pub struct Replacement {
    pub temp: String,
    pub target: String,
}

/// The name of the temporary file beside a file of this name.
pub open spec fn temp_name(name: Option<Seq<char>>) -> Seq<char> {
    "."@ + (match name {
        Some(n) => n,
        None => "clipmesh"@,
    }) + ".tmp"@
}

/// The temporary file for a target in the directory `dir`.
pub fn temp_path(dir: &str, name: Option<String>) -> (r: String)
    ensures
        r@ == joined(
            dir@,
            temp_name(
                match name {
                    Some(n) => Some(n@),
                    None => None,
                },
            ),
        ),
{
    let mut file = ".".to_string();
    match name {
        Some(n) => {
            file.append(n.as_str());
        },
        None => {
            file.append("clipmesh");
        },
    }
    file.append(".tmp");
    join_path(dir, file.as_str())
}

/// Plans the replacement of the file that `path` names, where the walk along its
/// links came to `target`. A target that is still a link is never replaced: the
/// chain was too deep, or a cycle. The error says so.
pub fn write_atomic(path: &str, target: &str, target_is_link: bool) -> (r: Result<
    Replacement,
    String,
>)
    ensures
        match r {
            Ok(plan) => {
                &&& !target_is_link
                &&& plan.target@ == target@
                &&& plan.temp@ == joined(
                    dir_of(std_parent(target@)),
                    temp_name(std_file_name(target@)),
                )
            },
            Err(e) => target_is_link && e@ == path@
                + " resolves through too many symlink hops to write safely"@,
        },
{
    if target_is_link {
        let mut e = path.to_string();
        e.append(" resolves through too many symlink hops to write safely");
        return Err(e);
    }
    let dir = parent_dir(target);
    let temp = temp_path(dir.as_str(), path_file_name(target));
    Ok(Replacement { temp, target: target.to_string() })
}

} // verus!
