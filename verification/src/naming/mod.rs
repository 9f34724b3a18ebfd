//! Names of the graph: parsing, resolution against a node's own name, and
//! remapping.
//!
//! A name is absolute (it begins with a slash), private (it begins with a
//! tilde and is read below the node's own path) or relative (it is read below
//! the node's namespace, the parent of its path). A resolver turns names into
//! paths and replaces the paths that have been remapped.

pub mod error;
pub mod mapper;
pub mod path;

use self::error::Error;
use self::mapper::Mapper;
use self::path::{is_path, parse_path, path_text, Buffer};
use vstd::prelude::*;
use vstd::string::*;

verus! {

/// A `Resolver` as a mathematical value.
pub struct ResolverView {
    /// The node's own path.
    pub path: Seq<Seq<char>>,
    /// The path of the node's parent.
    pub namespace: Seq<Seq<char>>,
    /// The remappings: each source path with its destination.
    pub table: Map<Seq<Seq<char>>, Seq<Seq<char>>>,
}

impl ResolverView {
    /// The resolver of the node of this name, without remappings. The name
    /// must be the text of a path other than the root.
    pub open spec fn create(name: Seq<char>) -> Result<ResolverView, Error> {
        match parse_path(name) {
            Err(e) => Err(e),
            Ok(path) => if path.len() == 0 {
                Err(Error::InvalidName)
            } else {
                Ok(ResolverView { path, namespace: path.drop_last(), table: Map::empty() })
            },
        }
    }

    /// The text that a name stands for: the name itself where it is absolute,
    /// else the name below the node's path or namespace.
    pub open spec fn full_text(self, name: Seq<char>) -> Seq<char> {
        if name[0] == '/' {
            name
        } else if name[0] == '~' {
            path_text(self.path) + seq!['/'] + name.skip(1)
        } else {
            path_text(self.namespace) + seq!['/'] + name
        }
    }

    /// The path that a name stands for.
    pub open spec fn resolve(self, name: Seq<char>) -> Result<Seq<Seq<char>>, Error> {
        if name.len() == 0 {
            Err(Error::EmptyName)
        } else {
            parse_path(self.full_text(name))
        }
    }

    /// The resolver after `source` was remapped to `destination`. Both names
    /// are resolved first, the source before the destination.
    pub open spec fn map(self, source: Seq<char>, destination: Seq<char>) -> Result<
        ResolverView,
        Error,
    > {
        match self.resolve(source) {
            Err(e) => Err(e),
            Ok(from) => match self.resolve(destination) {
                Err(e) => Err(e),
                Ok(to) => Ok(ResolverView { table: self.table.insert(from, to), ..self }),
            },
        }
    }

    /// The path that stands for `path` after remapping.
    pub open spec fn remap(self, path: Seq<Seq<char>>) -> Seq<Seq<char>> {
        if self.table.contains_key(path) {
            self.table[path]
        } else {
            path
        }
    }

    /// The text of the path that a name stands for after remapping.
    pub open spec fn translate(self, name: Seq<char>) -> Result<Seq<char>, Error> {
        match self.resolve(name) {
            Err(e) => Err(e),
            Ok(path) => Ok(path_text(self.remap(path))),
        }
    }

    /// The resolver after each pair of `pairs` was remapped in turn. A pair
    /// with a name that does not resolve changes nothing.
    pub open spec fn map_all(self, pairs: Seq<(Seq<char>, Seq<char>)>) -> ResolverView
        decreases pairs.len(),
    {
        if pairs.len() == 0 {
            self
        } else {
            let before = self.map_all(pairs.drop_last());
            match before.map(pairs.last().0, pairs.last().1) {
                Ok(after) => after,
                Err(_) => before,
            }
        }
    }
}

/// Resolves names for one node and remaps them.
pub struct Resolver {
    path: Buffer,
    namespace: Buffer,
    mapper: Mapper,
}

impl View for Resolver {
    type V = ResolverView;

    closed spec fn view(&self) -> ResolverView {
        ResolverView { path: self.path@, namespace: self.namespace@, table: self.mapper@ }
    }
}

impl Resolver {
    /// The table is well-formed.
    pub closed spec fn wf(&self) -> bool {
        self.mapper.wf()
    }

    /// The resolver of the node of this name. Fails where the name is not the
    /// text of a path, or is the root, which has no namespace.
    pub fn new(name: &str) -> (r: Result<Resolver, Error>)
        ensures
            r matches Ok(resolver) ==> resolver.wf() && ResolverView::create(name@) == Ok::<
                ResolverView,
                Error,
            >(resolver@),
            r matches Err(e) ==> ResolverView::create(name@) == Err::<ResolverView, Error>(e),
    {
        let path = match Buffer::parse(name) {
            Ok(path) => path,
            Err(e) => {
                return Err(e);
            },
        };
        let namespace = match path.parent() {
            Some(namespace) => namespace,
            None => {
                return Err(Error::InvalidName);
            },
        };
        Ok(Resolver { path, namespace, mapper: Mapper::new() })
    }

    /// The path that a name stands for. An absolute name is read as it is, a
    /// private name below the node's path, any other below its namespace.
    pub fn resolve(&self, name: &str) -> (r: Result<Buffer, Error>)
        ensures
            r matches Ok(path) ==> self@.resolve(name@) == Ok::<Seq<Seq<char>>, Error>(path@)
                && is_path(path@),
            r matches Err(e) ==> self@.resolve(name@) == Err::<Seq<Seq<char>>, Error>(e),
    {
        if name.is_empty() {
            return Err(Error::EmptyName);
        }
        let first = name.get_char(0);
        if first == '/' {
            return Buffer::parse(name);
        }
        proof {
            reveal_strlit("/");
        }
        let mut text = if first == '~' {
            let rest = name.substring_char(1, name.unicode_len());
            assert(rest@ =~= name@.skip(1));
            let mut text = self.path.to_string();
            text.append("/");
            text.append(rest);
            text
        } else {
            let mut text = self.namespace.to_string();
            text.append("/");
            text.append(name);
            text
        };
        assert(text@ =~= self@.full_text(name@));
        Buffer::parse(text.as_str())
    }

    /// Remaps `source` to `destination`. Both names are resolved first; where
    /// one does not resolve, nothing changes. A later remapping of the same
    /// source replaces an earlier one.
    pub fn map(&mut self, source: &str, destination: &str) -> (r: Result<(), Error>)
        requires
            old(self).wf(),
        ensures
            final(self).wf(),
            r is Ok ==> old(self)@.map(source@, destination@) == Ok::<ResolverView, Error>(
                final(self)@,
            ),
            r matches Err(e) ==> old(self)@.map(source@, destination@) == Err::<ResolverView, Error>(e)
                && final(self)@ == old(self)@,
    {
        let source = match self.resolve(source) {
            Ok(path) => path,
            Err(e) => {
                return Err(e);
            },
        };
        let destination = match self.resolve(destination) {
            Ok(path) => path,
            Err(e) => {
                return Err(e);
            },
        };
        self.mapper.add(source.get(), destination);
        Ok(())
    }

    /// The text of the path that a name stands for: of its destination where
    /// the path has been remapped, else of the path itself.
    pub fn translate(&self, name: &str) -> (r: Result<String, Error>)
        requires
            self.wf(),
        ensures
            r matches Ok(text) ==> self@.translate(name@) == Ok::<Seq<char>, Error>(text@),
            r matches Err(e) ==> self@.translate(name@) == Err::<Seq<char>, Error>(e),
    {
        let path = match self.resolve(name) {
            Ok(path) => path,
            Err(e) => {
                return Err(e);
            },
        };
        match self.mapper.translate(path.get()) {
            Some(v) => Ok(v.to_string()),
            None => Ok(path.to_string()),
        }
    }
}

/// Remapping changes neither the node's path nor its namespace, so a name
/// resolves after it as it did before.
pub proof fn lemma_map_all_keeps_scope(v: ResolverView, pairs: Seq<(Seq<char>, Seq<char>)>)
    ensures
        v.map_all(pairs).path == v.path,
        v.map_all(pairs).namespace == v.namespace,
        forall|name: Seq<char>| #[trigger] v.map_all(pairs).resolve(name) == v.resolve(name),
    decreases pairs.len(),
{
    if pairs.len() > 0 {
        lemma_map_all_keeps_scope(v, pairs.drop_last());
    }
}

/// The last remapping of a source wins: after any run of remappings, a name
/// that resolves to the source of remapping `j` translates to the text of
/// that remapping's destination, provided that no later remapping has the
/// same source.
pub proof fn theorem_last_remapping_wins(
    v: ResolverView,
    pairs: Seq<(Seq<char>, Seq<char>)>,
    j: int,
    name: Seq<char>,
)
    requires
        0 <= j < pairs.len(),
        v.resolve(pairs[j].0) is Ok,
        v.resolve(pairs[j].1) is Ok,
        v.resolve(name) == v.resolve(pairs[j].0),
        forall|k: int|
            j < k < pairs.len() ==> v.resolve(#[trigger] pairs[k].0) != v.resolve(pairs[j].0),
    ensures
        v.map_all(pairs).translate(name) == Ok::<Seq<char>, Error>(
            path_text(v.resolve(pairs[j].1)->Ok_0),
        ),
    decreases pairs.len(),
{
    let front = pairs.drop_last();
    let before = v.map_all(front);
    lemma_map_all_keeps_scope(v, front);
    lemma_map_all_keeps_scope(v, pairs);
    if j == pairs.len() - 1 {
        assert(before.resolve(pairs[j].0) == v.resolve(pairs[j].0));
        assert(before.resolve(pairs[j].1) == v.resolve(pairs[j].1));
    } else {
        assert forall|k: int| j < k < front.len() implies v.resolve(#[trigger] front[k].0)
            != v.resolve(front[j].0) by {
            assert(front[k] == pairs[k]);
        }
        theorem_last_remapping_wins(v, front, j, name);
        let last = pairs.last();
        assert(last == pairs[pairs.len() - 1]);
        assert(before.resolve(last.0) == v.resolve(last.0));
        assert(before.resolve(last.1) == v.resolve(last.1));
        assert(before.resolve(name) == v.resolve(name));
    }
}

} // verus!
