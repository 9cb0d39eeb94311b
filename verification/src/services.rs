//! The compiled-in backends: builders the scheme registry can dispatch to.

use vstd::prelude::*;
use vstd::string::StrSliceExecFns;

use crate::config::lookup;
use crate::config::ConfigMap;
use crate::error::Error;
use crate::error::ErrorKind;
use crate::layer::LayerStep;
use crate::operator::Accessor;
use crate::operator::Builder;
use crate::scheme::Scheme;
use crate::store::Store;

verus! {

/// An absolute path: non-empty and opening with a separator.
pub open spec fn abs_path(p: Seq<char>) -> bool {
    p.len() > 0 && p[0] == '/'
}

/// The in-process memory backend: no configuration is required.
pub struct Memory {}

impl Default for Memory {
    /// A fresh memory builder; it always suffices to build.
    fn default() -> (r: Memory)
        ensures
            r.spec_valid(),
    {
        Memory {  }
    }
}

impl Builder for Memory {
    open spec fn spec_scheme() -> Scheme {
        Scheme::Memory
    }

    open spec fn spec_valid(&self) -> bool {
        true
    }

    open spec fn map_valid(m: Seq<(Seq<char>, Seq<char>)>) -> bool {
        true
    }

    fn from_map(map: &ConfigMap) -> (b: Self) {
        Memory {  }
    }

    fn build(self) -> (r: Result<Accessor, Error>) {
        let acc = Accessor { scheme: Scheme::Memory, store: Store::new(), stack: Vec::new() };
        proof {
            assert(acc.stack@ =~= Seq::<LayerStep>::empty());
        }
        Result::Ok(acc)
    }
}

/// The filesystem-like backend: all operations are anchored under a root
/// path, which must be set and absolute.
pub struct Fs {
    root: Option<String>,
}

impl Fs {
    /// The configured root, if one was set.
    pub closed spec fn spec_root(&self) -> Option<Seq<char>> {
        match self.root {
            Option::Some(s) => Option::Some(s@),
            Option::None => Option::None,
        }
    }

    /// Set the root all operations will happen under; it must be an
    /// absolute path for the builder to succeed.
    pub fn root(&mut self, path: &str)
        ensures
            final(self).spec_root() == Some(path@),
    {
        self.root = Option::Some(path.to_owned());
    }
}

impl Default for Fs {
    /// A fresh filesystem builder with no root configured yet.
    fn default() -> (r: Fs)
        ensures
            r.spec_root() is None,
    {
        Fs { root: Option::None }
    }
}

impl Builder for Fs {
    open spec fn spec_scheme() -> Scheme {
        Scheme::Fs
    }

    open spec fn spec_valid(&self) -> bool {
        match self.spec_root() {
            Option::Some(r) => abs_path(r),
            Option::None => false,
        }
    }

    open spec fn map_valid(m: Seq<(Seq<char>, Seq<char>)>) -> bool {
        match lookup(m, "root"@) {
            Option::Some(r) => abs_path(r),
            Option::None => false,
        }
    }

    fn from_map(map: &ConfigMap) -> (b: Self) {
        match map.get("root") {
            Option::Some(v) => Fs { root: Option::Some(v.clone()) },
            Option::None => Fs { root: Option::None },
        }
    }

    fn build(self) -> (r: Result<Accessor, Error>) {
        match self.root {
            Option::Some(root) => {
                let ok = root.as_str().unicode_len() > 0 && root.as_str().get_char(0) == '/';
                if ok {
                    let acc = Accessor {
                        scheme: Scheme::Fs,
                        store: Store::new(),
                        stack: Vec::new(),
                    };
                    proof {
                        assert(acc.stack@ =~= Seq::<LayerStep>::empty());
                    }
                    Result::Ok(acc)
                } else {
                    Result::Err(Error::new(ErrorKind::ConfigInvalid, "root must be absolute"))
                }
            },
            Option::None => Result::Err(Error::new(ErrorKind::ConfigInvalid, "root is required")),
        }
    }
}

} // verus!
