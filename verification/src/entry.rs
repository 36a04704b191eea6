//! Directory-entry metadata and the pruning predicate of the traversal
//! filter: which directories the walk yields and descends into.

use vstd::prelude::*;
use crate::config::RunConfig;

verus! {

/// Cached metadata of one filesystem entry, as the traversal sees it.
pub struct EntryMeta {
    /// The final path component of the entry.
    pub name: String,
    /// Whether the entry is a directory.
    pub is_dir: bool,
    /// Whether the entry is reached through a symbolic link.
    pub is_symlink: bool,
    /// The extension of the entry's name, when it has one.
    pub extension: Option<String>,
}

/// A name marks its entry as hidden when it starts with the hidden
/// marker character `.`.
pub open spec fn spec_hidden(name: Seq<char>) -> bool {
    name.len() > 0 && name[0] == '.'
}

/// Whether one of `names` reads exactly `x`.
pub open spec fn contains_str(names: Seq<Seq<char>>, x: Seq<char>) -> bool {
    exists|i: int| 0 <= i < names.len() && names[i] == x
}

/// The pruning predicate: an entry survives the traversal filter only
/// when it is a directory, is not reached through a symbolic link, is
/// not hidden, and does not carry one of the configured bundle
/// extensions.
pub open spec fn spec_keep(e: EntryMeta, cfg: RunConfig) -> bool {
    &&& e.is_dir
    &&& !e.is_symlink
    &&& !spec_hidden(e.name@)
    &&& match e.extension {
        Some(ext) => !contains_str(cfg.bundle_extensions.deep_view(), ext@),
        None => true,
    }
}

/// Whether the entry's name marks it as hidden.
pub fn is_hidden(entry: &EntryMeta) -> (r: bool)
    ensures
        r == spec_hidden(entry.name@),
{
    let name: &str = entry.name.as_str();
    if name.is_empty() {
        false
    } else {
        name.get_char(0) == '.'
    }
}

/// Whether the entry is reached through a symbolic link.
pub fn is_symlink(entry: &EntryMeta) -> (r: bool)
    ensures
        r == entry.is_symlink,
{
    entry.is_symlink
}

/// Whether one of `names` equals `x`.
pub fn string_in(names: &Vec<String>, x: &String) -> (r: bool)
    ensures
        r == contains_str(names.deep_view(), x@),
{
    let mut i: usize = 0;
    while i < names.len()
        invariant
            i <= names.len(),
            forall|j: int| 0 <= j < i ==> names.deep_view()[j] != x@,
        decreases names.len() - i,
    {
        if names[i] == *x {
            assert(names.deep_view()[i as int] == x@);
            return true;
        }
        i += 1;
    }
    false
}

/// The pruning decision of the traversal filter for one entry: `true`
/// means the walk yields the entry and may descend into it, `false`
/// means the whole subtree is skipped.
pub fn strategy(entry: &EntryMeta, cfg: &RunConfig) -> (r: bool)
    ensures
        r == spec_keep(*entry, *cfg),
{
    if !entry.is_dir || is_symlink(entry) || is_hidden(entry) {
        return false;
    }
    match &entry.extension {
        Some(ext) => !string_in(&cfg.bundle_extensions, ext),
        None => true,
    }
}

/// The path read by the components of `cs`, joined with `sep`.
pub open spec fn spec_join(cs: Seq<Seq<char>>, sep: Seq<char>) -> Seq<char>
    decreases cs.len(),
{
    if cs.len() == 0 {
        Seq::empty()
    } else if cs.len() == 1 {
        cs[0]
    } else {
        spec_join(cs.drop_last(), sep) + sep + cs.last()
    }
}

/// Renders a component path as one string, the components joined with
/// `sep`.
pub fn path_to_str(components: &Vec<String>, sep: &str) -> (r: String)
    ensures
        r@ == spec_join(components.deep_view(), sep@),
{
    let mut out = String::new();
    let mut i: usize = 0;
    while i < components.len()
        invariant
            i <= components.len(),
            out@ == spec_join(components.deep_view().subrange(0, i as int), sep@),
        decreases components.len() - i,
    {
        if i > 0 {
            out.append(sep);
        }
        out.append(components[i].as_str());
        proof {
            let full = components.deep_view();
            let upto = full.subrange(0, i + 1);
            assert(upto.drop_last() =~= full.subrange(0, i as int));
            assert(upto.last() == full[i as int]);
            if i == 0 {
                assert(out@ =~= spec_join(upto, sep@));
            }
        }
        i += 1;
    }
    proof {
        assert(components.deep_view().subrange(0, components.len() as int)
            =~= components.deep_view());
    }
    out
}

} // verus!
