//! The generator-wide configuration: global switches plus the store of
//! per-path attribute bags that resolution reads.

use vstd::prelude::*;

use crate::config::Config;
use crate::pathtree::PathTree;
use crate::pathtree::bags_spec;
use crate::pathtree::fold_merge;
use crate::pathtree::spec_split;

verus! {

/// Which direction of the wire protocol code is generated for.
#[derive(Debug, Clone, Copy, PartialEq, Eq, Structural)]
pub enum EncodeDecode {
    EncodeOnly,
    DecodeOnly,
    Both,
}

/// Generator-wide settings, plus the per-path override bags registered for
/// schema elements.
pub struct GenConfig {
    pub encode_decode: EncodeDecode,
    pub size_cache: bool,
    pub default_pkg_filename: String,
    pub strip_enum_prefix: bool,
    pub format: bool,
    pub use_std: bool,
    pub field_configs: PathTree,
}

impl GenConfig {
    /// A configuration with default switches and no override registered at
    /// any path.
    pub fn new() -> (r: Self)
        ensures
            r.encode_decode == EncodeDecode::Both,
            r.size_cache == false,
            r.default_pkg_filename@ == Seq::<char>::empty(),
            r.strip_enum_prefix == false,
            r.format == false,
            r.use_std == false,
            forall|q: Seq<Seq<char>>| #[trigger] r.field_configs.get(q) is None,
    {
        GenConfig {
            encode_decode: EncodeDecode::Both,
            size_cache: false,
            default_pkg_filename: String::new(),
            strip_enum_prefix: false,
            format: false,
            use_std: false,
            field_configs: PathTree::new(),
        }
    }

    /// Registers `config` at the dot-delimited `path` (last write wins),
    /// leaving the global switches untouched.
    pub fn configure(&mut self, path: &str, config: Config)
        ensures
            forall|q: Seq<Seq<char>>| #[trigger] final(self).field_configs.get(q) == (if path@.len()
                > 0 && q == spec_split(path@) {
                Some(config)
            } else {
                old(self).field_configs.get(q)
            }),
            final(self).encode_decode == old(self).encode_decode,
            final(self).size_cache == old(self).size_cache,
            final(self).default_pkg_filename == old(self).default_pkg_filename,
            final(self).strip_enum_prefix == old(self).strip_enum_prefix,
            final(self).format == old(self).format,
            final(self).use_std == old(self).use_std,
    {
        self.field_configs.insert(path, config);
    }

    /// The effective bag for the element at the dot-delimited `path`: all
    /// registered bags on the path's ancestor chain, folded root-to-leaf.
    pub fn resolve(&self, path: &str) -> (r: Config)
        ensures
            r == fold_merge(bags_spec(self.field_configs, spec_split(path@))),
    {
        self.field_configs.resolve(path)
    }
}

} // verus!
