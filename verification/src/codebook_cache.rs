//! Where codebooks are kept: the process cache, the cache directory, and the
//! order in which a codebook is looked for.
//!
//! Reading the environment, reading and writing files, and computing a
//! codebook are done by the caller. This module says where to look, what to
//! make of what was found, and what to do next.

use std::collections::HashMap;

use vstd::prelude::*;
use vstd::string::StringExecFns;

use crate::codebook::{load_codebook, save_codebook, validate_codebook_params, CodebookError, CodebookParts, CODEBOOK_VERSION};
use crate::float32::Float32;
use crate::text::append_decimal;

verus! {

// ---------------------------------------------------------------------------
// Paths
// ---------------------------------------------------------------------------

/// A place in the file system: a root, in the platform's own bytes, and names
/// to be joined to it one after the other.
pub struct CachePath {
    pub root: Vec<u8>,
    pub components: Vec<String>,
}

/// The contents of a [`CachePath`].
pub struct CachePathView {
    pub root: Seq<u8>,
    pub components: Seq<Seq<char>>,
}

impl View for CachePath {
    type V = CachePathView;

    open spec fn view(&self) -> CachePathView {
        CachePathView {
            root: self.root@,
            components: self.components@.map_values(|name: String| name@),
        }
    }
}

impl CachePathView {
    /// The path of `name` under this one.
    pub open spec fn join(self, name: Seq<char>) -> CachePathView {
        CachePathView { root: self.root, components: self.components.push(name) }
    }
}

impl CachePath {
    /// The root itself.
    pub fn new(root: Vec<u8>) -> (result: CachePath)
        ensures
            result@ == (CachePathView { root: root@, components: seq![] }),
    {
        let result: CachePath = CachePath { root, components: Vec::new() };
        assert(result@.components =~= seq![]);
        result
    }

    /// Goes down into `name`.
    pub fn push(&mut self, name: String)
        ensures
            final(self)@ == old(self)@.join(name@),
    {
        self.components.push(name);
        assert(self@.components =~= old(self)@.components.push(name@));
    }

    /// The path of `name` under this one.
    pub fn join(&self, name: String) -> (result: CachePath)
        ensures
            result@ == self@.join(name@),
    {
        let mut root: Vec<u8> = Vec::new();
        root.extend_from_slice(self.root.as_slice());
        assert(root@ =~= self.root@);
        let mut components: Vec<String> = Vec::new();
        let mut i: usize = 0;
        while i < self.components.len()
            invariant
                i <= self.components@.len(),
                components@.len() == i,
                forall|k: int| 0 <= k < i ==> #[trigger] components@[k]@ == self.components@[k]@,
            decreases self.components@.len() - i,
        {
            components.push(self.components[i].clone());
            i = i + 1;
        }
        components.push(name);
        let result: CachePath = CachePath { root, components };
        assert(result@.components =~= self@.components.push(name@));
        result
    }
}

/// The variable that names the cache directory outright.
pub const CACHE_DIR_VAR: &'static str = "TURBOVEC_CODEBOOK_CACHE_DIR";

/// The variable that names the user's cache directory.
pub const XDG_CACHE_HOME_VAR: &'static str = "XDG_CACHE_HOME";

/// The variable that names the user's home directory.
pub const HOME_VAR: &'static str = "HOME";

/// The platforms that keep caches in different places.
#[derive(Clone, Copy, Debug, PartialEq, Eq, Structural)]
pub enum Platform {
    MacOs,
    Other,
}

/// The environment variables that the cache directory depends on, each as far
/// as it is set.
pub struct EnvPaths {
    /// The value of [`CACHE_DIR_VAR`].
    pub cache_dir: Option<Vec<u8>>,
    /// The value of [`XDG_CACHE_HOME_VAR`].
    pub xdg_cache_home: Option<Vec<u8>>,
    /// The value of [`HOME_VAR`].
    pub home: Option<Vec<u8>>,
}

/// The value of a variable that is set to something.
pub open spec fn non_empty(value: Option<Vec<u8>>) -> Option<Seq<u8>> {
    match value {
        Some(bytes) => if bytes@.len() > 0 {
            Some(bytes@)
        } else {
            None
        },
        None => None,
    }
}

/// The default cache directory: the one named outright, or else the place that
/// the platform has for caches, or else none.
pub open spec fn default_cache_dir(platform: Platform, env: EnvPaths) -> Option<CachePathView> {
    match non_empty(env.cache_dir) {
        Some(dir) => Some(CachePathView { root: dir, components: seq![] }),
        None => match platform {
            Platform::MacOs => match non_empty(env.home) {
                Some(home) => Some(
                    CachePathView {
                        root: home,
                        components: seq!["Library"@, "Caches"@, "turbovec"@, "codebooks"@],
                    },
                ),
                None => None,
            },
            Platform::Other => match non_empty(env.xdg_cache_home) {
                Some(cache_home) => Some(
                    CachePathView {
                        root: cache_home,
                        components: seq!["turbovec"@, "codebooks"@],
                    },
                ),
                None => match non_empty(env.home) {
                    Some(home) => Some(
                        CachePathView {
                            root: home,
                            components: seq![".cache"@, "turbovec"@, "codebooks"@],
                        },
                    ),
                    None => None,
                },
            },
        },
    }
}

/// Passes over a variable that is set to nothing.
pub fn non_empty_env_path(value: Option<Vec<u8>>) -> (result: Option<Vec<u8>>)
    ensures
        match non_empty(value) {
            Some(bytes) => result is Some && result->0@ == bytes,
            None => result is None,
        },
{
    match value {
        Some(bytes) => if bytes.len() > 0 {
            Some(bytes)
        } else {
            None
        },
        None => None,
    }
}

/// The default local codebook cache directory.
///
/// The directory named outright takes precedence. Without it, macOS uses
/// `~/Library/Caches/turbovec/codebooks`; other platforms use
/// `$XDG_CACHE_HOME/turbovec/codebooks` or `~/.cache/turbovec/codebooks`.
pub fn default_codebook_cache_dir(platform: Platform, env: EnvPaths) -> (result: Option<CachePath>)
    ensures
        match default_cache_dir(platform, env) {
            Some(dir) => result is Some && result->0@ == dir,
            None => result is None,
        },
{
    match non_empty_env_path(env.cache_dir) {
        Some(dir) => {
            return Some(CachePath::new(dir));
        },
        None => {},
    }
    match platform {
        Platform::MacOs => match non_empty_env_path(env.home) {
            Some(home) => {
                let mut dir: CachePath = CachePath::new(home);
                dir.push(String::from_str("Library"));
                dir.push(String::from_str("Caches"));
                dir.push(String::from_str("turbovec"));
                dir.push(String::from_str("codebooks"));
                assert(dir@.components =~= seq![
                    "Library"@,
                    "Caches"@,
                    "turbovec"@,
                    "codebooks"@,
                ]);
                Some(dir)
            },
            None => None,
        },
        Platform::Other => match non_empty_env_path(env.xdg_cache_home) {
            Some(cache_home) => {
                let mut dir: CachePath = CachePath::new(cache_home);
                dir.push(String::from_str("turbovec"));
                dir.push(String::from_str("codebooks"));
                assert(dir@.components =~= seq!["turbovec"@, "codebooks"@]);
                Some(dir)
            },
            None => match non_empty_env_path(env.home) {
                Some(home) => {
                    let mut dir: CachePath = CachePath::new(home);
                    dir.push(String::from_str(".cache"));
                    dir.push(String::from_str("turbovec"));
                    dir.push(String::from_str("codebooks"));
                    assert(dir@.components =~= seq![".cache"@, "turbovec"@, "codebooks"@]);
                    Some(dir)
                },
                None => None,
            },
        },
    }
}

/// The name of the file of a key.
pub open spec fn cache_file_name(bits: nat, dim: nat) -> Seq<char> {
    "codebook-b"@ + crate::text::decimal_text(bits) + "-d"@ + crate::text::decimal_text(dim)
        + "-v"@ + crate::text::decimal_text(CODEBOOK_VERSION as nat) + ".tvcb"@
}

/// The path of the file of a `(bits, dim)` codebook under `cache_dir`.
pub fn codebook_cache_path(cache_dir: &CachePath, bits: usize, dim: usize) -> (result: Result<
    CachePath,
    CodebookError,
>)
    ensures
        match crate::codebook::params_error(bits, dim) {
            Some(error) => result == Err::<CachePath, CodebookError>(error),
            None => result is Ok && result->Ok_0@ == cache_dir@.join(
                cache_file_name(bits as nat, dim as nat),
            ),
        },
{
    match validate_codebook_params(bits, dim) {
        Err(error) => {
            return Err(error);
        },
        Ok(()) => {},
    }
    let mut name: String = String::from_str("codebook-b");
    append_decimal(&mut name, bits as u128);
    name.append("-d");
    append_decimal(&mut name, dim as u128);
    name.append("-v");
    append_decimal(&mut name, CODEBOOK_VERSION as u128);
    name.append(".tvcb");
    Ok(cache_dir.join(name))
}

/// The extension of the file that a codebook is written to before it replaces
/// the one in the cache: it names the process and the time.
pub open spec fn temp_extension_text(process_id: nat, nanos: nat) -> Seq<char> {
    "tmp-"@ + crate::text::decimal_text(process_id) + "-"@ + crate::text::decimal_text(nanos)
}

/// The extension of a temporary file.
pub fn temp_extension(process_id: u32, nanos: u128) -> (result: String)
    ensures
        result@ == temp_extension_text(process_id as nat, nanos as nat),
{
    let mut text: String = String::from_str("tmp-");
    append_decimal(&mut text, process_id as u128);
    text.append("-");
    append_decimal(&mut text, nanos);
    text
}

/// Each key has a cache file of its own.
pub proof fn lemma_cache_file_names_differ(bits1: usize, dim1: usize, bits2: usize, dim2: usize)
    requires
        crate::codebook::params_error(bits1, dim1) is None,
        crate::codebook::params_error(bits2, dim2) is None,
        cache_file_name(bits1 as nat, dim1 as nat) == cache_file_name(bits2 as nat, dim2 as nat),
    ensures
        bits1 == bits2,
        dim1 == dim2,
{
    reveal_strlit("codebook-b");
    reveal_strlit("-d");
    reveal_strlit("-v");
    reveal_strlit(".tvcb");
    let (name1, name2) = (
        cache_file_name(bits1 as nat, dim1 as nat),
        cache_file_name(bits2 as nat, dim2 as nat),
    );
    let (d1, d2) = (
        crate::text::decimal_text(dim1 as nat),
        crate::text::decimal_text(dim2 as nat),
    );
    assert(name1[10] == crate::text::digit_char(bits1 as nat));
    assert(name2[10] == crate::text::digit_char(bits2 as nat));
    assert(name1.len() == 13 + d1.len() + 8 && name2.len() == 13 + d2.len() + 8);
    assert(d1 =~= name1.subrange(13, name1.len() - 8));
    assert(d2 =~= name2.subrange(13, name2.len() - 8));
    crate::text::lemma_decimal_text_injective(dim1 as nat, dim2 as nat);
}

// ---------------------------------------------------------------------------
// The process cache
// ---------------------------------------------------------------------------

/// A copy of values.
pub fn copy_floats(values: &[Float32]) -> (result: Vec<Float32>)
    ensures
        result@ == values@,
{
    let mut copy: Vec<Float32> = Vec::new();
    copy.extend_from_slice(values);
    assert(copy@ =~= values@);
    copy
}

/// A copy of a codebook.
pub fn copy_parts(parts: &CodebookParts) -> (result: CodebookParts)
    ensures
        result.0@ == parts.0@,
        result.1@ == parts.1@,
{
    (copy_floats(parts.0.as_slice()), copy_floats(parts.1.as_slice()))
}

/// A key as one number.
spec fn key_number(bits: usize, dim: usize) -> u128 {
    (bits * 0x1_0000_0000_0000_0000 + dim) as u128
}

/// Different keys are different numbers.
proof fn lemma_key_number_injective(bits1: usize, dim1: usize, bits2: usize, dim2: usize)
    ensures
        key_number(bits1, dim1) == key_number(bits2, dim2) <==> bits1 == bits2 && dim1 == dim2,
{
}

/// The codebooks that this process has had in hand.
pub struct CodebookCache {
    books: HashMap<u128, CodebookParts>,
}

impl CodebookCache {
    /// The codebook kept for a key, if there is one.
    pub closed spec fn lookup(&self, bits: usize, dim: usize) -> Option<
        (Seq<Float32>, Seq<Float32>),
    > {
        let key = key_number(bits, dim);
        if self.books@.contains_key(key) {
            Some((self.books@[key].0@, self.books@[key].1@))
        } else {
            None
        }
    }

    /// A cache that holds nothing.
    pub fn new() -> (result: CodebookCache)
        ensures
            forall|bits: usize, dim: usize| #[trigger] result.lookup(bits, dim) is None,
    {
        broadcast use vstd::std_specs::hash::group_hash_axioms;

        CodebookCache { books: HashMap::new() }
    }

    /// The codebook kept for a key, if there is one.
    pub fn get_cached_codebook(&self, bits: usize, dim: usize) -> (result: Option<CodebookParts>)
        ensures
            match self.lookup(bits, dim) {
                Some(parts) => result is Some && (result->0).0@ == parts.0 && (result->0).1@ == parts.1,
                None => result is None,
            },
    {
        broadcast use vstd::std_specs::hash::group_hash_axioms;

        let key: u128 = bits as u128 * 0x1_0000_0000_0000_0000 + dim as u128;
        match self.books.get(&key) {
            Some(parts) => Some(copy_parts(parts)),
            None => None,
        }
    }

    /// Keeps a codebook for a key, in place of what was kept before.
    pub fn insert_cached_codebook(&mut self, bits: usize, dim: usize, parts: &CodebookParts)
        ensures
            final(self).lookup(bits, dim) == Some((parts.0@, parts.1@)),
            forall|b: usize, d: usize|
                (b, d) != (bits, dim) ==> #[trigger] final(self).lookup(b, d) == old(self).lookup(
                    b,
                    d,
                ),
    {
        broadcast use vstd::std_specs::hash::group_hash_axioms;

        let key: u128 = bits as u128 * 0x1_0000_0000_0000_0000 + dim as u128;
        self.books.insert(key, copy_parts(parts));
        proof {
            assert forall|b: usize, d: usize| (b, d) != (bits, dim) implies #[trigger] self.lookup(
                b,
                d,
            ) == old(self).lookup(b, d) by {
                lemma_key_number_injective(b, d, bits, dim);
            }
        }
    }
}

// ---------------------------------------------------------------------------
// Looking for a codebook
// ---------------------------------------------------------------------------

/// Why no codebook came out of a cache directory.
#[derive(Debug)]
pub enum CacheError<E> {
    /// The key or the codebook was refused.
    Codebook(CodebookError),
    /// The file could not be written.
    Io(E),
}

/// What reading a cache file gave is the codebook asked for.
pub open spec fn found(contents: Option<Vec<u8>>, bits: usize, dim: usize) -> bool {
    contents is Some && crate::codebook::loaded(contents->0@, bits, dim) is Ok
}

/// The path of the file of a key under a directory.
pub open spec fn cache_file_path(cache_dir: CachePathView, bits: usize, dim: usize) -> CachePathView {
    cache_dir.join(cache_file_name(bits as nat, dim as nat))
}

/// The functions handed in can be called as looking in a directory calls them:
/// the key's file is read; a codebook is computed only where that gave none;
/// and only a codebook that was computed then, and is one for the key, is
/// written, as its file.
pub open spec fn lookup_ready<E, R, C, W>(
    cache_dir: CachePathView,
    bits: usize,
    dim: usize,
    read: R,
    compute: C,
    write: W,
) -> bool where
    R: FnOnce(&CachePath) -> Option<Vec<u8>>,
    C: Fn(usize, usize) -> CodebookParts,
    W: FnOnce(&CachePath, &Vec<u8>) -> Result<(), E>,
 {
    let target = cache_file_path(cache_dir, bits, dim);
    &&& forall|path: &CachePath| path@ == target ==> #[trigger] read.requires((path,))
    &&& forall|path: &CachePath, contents: Option<Vec<u8>>|
        path@ == target && #[trigger] read.ensures((path,), contents) && !found(contents, bits, dim)
            ==> compute.requires((bits, dim))
    &&& forall|
        path: &CachePath,
        contents: Option<Vec<u8>>,
        made: CodebookParts,
        file: &Vec<u8>,
    |
        #![trigger read.ensures((path,), contents), compute.ensures((bits, dim), made), write.requires((path, file))]
        {
            &&& path@ == target
            &&& read.ensures((path,), contents)
            &&& !found(contents, bits, dim)
            &&& compute.ensures((bits, dim), made)
            &&& crate::codebook::parts_error(bits, dim, made.0@.len(), made.1@.len()) is None
            &&& file@ == crate::codebook::file_bytes(bits as int, dim as int, made.0@, made.1@)
        } ==> write.requires((path, file))
}

/// What looking in a directory for a codebook gave: an error for a bad key,
/// what the key's file held where that was a codebook for the key, and
/// otherwise what came of creating it.
pub open spec fn looked_up<E, R, C, W>(
    cache_dir: CachePathView,
    bits: usize,
    dim: usize,
    read: R,
    compute: C,
    write: W,
    result: Result<CodebookParts, CacheError<E>>,
) -> bool where
    R: FnOnce(&CachePath) -> Option<Vec<u8>>,
    C: Fn(usize, usize) -> CodebookParts,
    W: FnOnce(&CachePath, &Vec<u8>) -> Result<(), E>,
 {
    match crate::codebook::params_error(bits, dim) {
        Some(error) => result == Err::<CodebookParts, CacheError<E>>(CacheError::Codebook(error)),
        None => exists|path: CachePath, contents: Option<Vec<u8>>|
            {
                &&& path@ == cache_file_path(cache_dir, bits, dim)
                &&& #[trigger] read.ensures((&path,), contents)
                &&& if found(contents, bits, dim) {
                    &&& result is Ok
                    &&& (result->Ok_0.0@, result->Ok_0.1@) == crate::codebook::loaded(
                        contents->0@,
                        bits,
                        dim,
                    )->Ok_0
                } else {
                    exists|made: CodebookParts| #[trigger]
                        compute.ensures((bits, dim), made) && created(
                            path,
                            bits,
                            dim,
                            made,
                            write,
                            result,
                        )
                }
            },
    }
}

/// A codebook from `cache_dir`, which creates or repairs the cache file when
/// needed, and leaves a good one alone.
///
/// `read` gives the contents of a file, or nothing where it cannot be read;
/// `compute` makes the codebook of a key; `write` puts a file in place.
pub fn load_or_create_codebook<E, R, C, W>(
    cache_dir: &CachePath,
    bits: usize,
    dim: usize,
    read: R,
    compute: &C,
    write: W,
) -> (result: Result<CodebookParts, CacheError<E>>) where
    R: FnOnce(&CachePath) -> Option<Vec<u8>>,
    C: Fn(usize, usize) -> CodebookParts,
    W: FnOnce(&CachePath, &Vec<u8>) -> Result<(), E>,

    requires
        crate::codebook::params_error(bits, dim) is None ==> lookup_ready(
            cache_dir@,
            bits,
            dim,
            read,
            *compute,
            write,
        ),
    ensures
        looked_up(cache_dir@, bits, dim, read, *compute, write, result),
{
    let path: CachePath = match codebook_cache_path(cache_dir, bits, dim) {
        Err(error) => {
            return Err(CacheError::Codebook(error));
        },
        Ok(path) => path,
    };
    let contents: Option<Vec<u8>> = read(&path);
    match &contents {
        Some(file) => match load_codebook(file.as_slice(), bits, dim) {
            Ok(parts) => {
                return Ok(parts);
            },
            Err(_) => {},
        },
        None => {},
    }
    let made: CodebookParts = compute(bits, dim);
    match save_codebook(bits, dim, made.0.as_slice(), made.1.as_slice()) {
        Err(error) => Err(CacheError::Codebook(error)),
        Ok(file) => match write(&path, &file) {
            Err(error) => Err(CacheError::Io(error)),
            Ok(()) => Ok(made),
        },
    }
}

/// A computed codebook was checked and written, and is what came out; or the
/// first of the two that failed is.
pub open spec fn created<E, W: FnOnce(&CachePath, &Vec<u8>) -> Result<(), E>>(
    path: CachePath,
    bits: usize,
    dim: usize,
    made: CodebookParts,
    write: W,
    result: Result<CodebookParts, CacheError<E>>,
) -> bool {
    match crate::codebook::parts_error(bits, dim, made.0@.len(), made.1@.len()) {
        Some(error) => result == Err::<CodebookParts, CacheError<E>>(CacheError::Codebook(error)),
        None => exists|file: Vec<u8>, written: Result<(), E>|
            {
                &&& #[trigger] write.ensures((&path, &file), written)
                &&& file@ == crate::codebook::file_bytes(
                    bits as int,
                    dim as int,
                    made.0@,
                    made.1@,
                )
                &&& match written {
                    Ok(_) => result == Ok::<CodebookParts, CacheError<E>>(made),
                    Err(error) => result == Err::<CodebookParts, CacheError<E>>(
                        CacheError::Io(error),
                    ),
                }
            },
    }
}

/// A created or repaired cache file holds what came out: loading the file that
/// was written gives the same codebook.
pub proof fn lemma_created_file_loads_back<E, W: FnOnce(&CachePath, &Vec<u8>) -> Result<(), E>>(
    path: CachePath,
    bits: usize,
    dim: usize,
    made: CodebookParts,
    write: W,
    result: Result<CodebookParts, CacheError<E>>,
)
    requires
        created(path, bits, dim, made, write, result),
        result is Ok,
    ensures
        result == Ok::<CodebookParts, CacheError<E>>(made),
        exists|file: Vec<u8>, written: Result<(), E>|
            {
                &&& #[trigger] write.ensures((&path, &file), written)
                &&& written is Ok
                &&& crate::codebook::loaded(file@, bits, dim) == Ok::<
                    (Seq<Float32>, Seq<Float32>),
                    CodebookError,
                >((made.0@, made.1@))
            },
{
    let (file, written) = choose|file: Vec<u8>, written: Result<(), E>|
        {
            &&& #[trigger] write.ensures((&path, &file), written)
            &&& file@ == crate::codebook::file_bytes(bits as int, dim as int, made.0@, made.1@)
            &&& match written {
                Ok(_) => result == Ok::<CodebookParts, CacheError<E>>(made),
                Err(error) => result == Err::<CodebookParts, CacheError<E>>(CacheError::Io(error)),
            }
        };
    crate::codebook::lemma_load_gives_back_saved(bits, dim, made.0@, made.1@, seq![]);
    assert(file@ + seq![] =~= file@);
    assert(written is Ok);
}

/// The functions handed in can be called as looking for a codebook in a
/// directory and, where that fails, computing it calls them.
pub open spec fn dir_serving_ready<E, R, C, W>(
    cache_dir: CachePathView,
    bits: usize,
    dim: usize,
    read: R,
    compute: C,
    write: W,
) -> bool where
    R: FnOnce(&CachePath) -> Option<Vec<u8>>,
    C: Fn(usize, usize) -> CodebookParts,
    W: FnOnce(&CachePath, &Vec<u8>) -> Result<(), E>,
 {
    &&& crate::codebook::params_error(bits, dim) is None ==> lookup_ready(
        cache_dir,
        bits,
        dim,
        read,
        compute,
        write,
    )
    &&& forall|outcome: Result<CodebookParts, CacheError<E>>|
        outcome is Err && #[trigger] looked_up(
            cache_dir,
            bits,
            dim,
            read,
            compute,
            write,
            outcome,
        ) ==> compute.requires((bits, dim))
}

/// A codebook came out of a directory, or else was computed.
pub open spec fn served_from_dir<E, R, C, W>(
    cache_dir: CachePathView,
    bits: usize,
    dim: usize,
    read: R,
    compute: C,
    write: W,
    result: CodebookParts,
) -> bool where
    R: FnOnce(&CachePath) -> Option<Vec<u8>>,
    C: Fn(usize, usize) -> CodebookParts,
    W: FnOnce(&CachePath, &Vec<u8>) -> Result<(), E>,
 {
    exists|outcome: Result<CodebookParts, CacheError<E>>|
        {
            &&& #[trigger] looked_up(cache_dir, bits, dim, read, compute, write, outcome)
            &&& match outcome {
                Ok(parts) => result == parts,
                Err(_) => compute.ensures((bits, dim), result),
            }
        }
}

/// The functions handed in can be called as looking for a codebook calls them,
/// where the process cache has none: those of the directory, where there is
/// one, and the computation, where there is none or nothing came out of it.
pub open spec fn serving_ready<E, R, C, W>(
    cache_dir: Option<CachePathView>,
    bits: usize,
    dim: usize,
    read: R,
    compute: C,
    write: W,
) -> bool where
    R: FnOnce(&CachePath) -> Option<Vec<u8>>,
    C: Fn(usize, usize) -> CodebookParts,
    W: FnOnce(&CachePath, &Vec<u8>) -> Result<(), E>,
 {
    match cache_dir {
        Some(dir) => dir_serving_ready(dir, bits, dim, read, compute, write),
        None => compute.requires((bits, dim)),
    }
}

/// What looking for a codebook gave: what the process cache kept; otherwise
/// what came out of the directory, where there is one; and otherwise what was
/// computed.
pub open spec fn served<E, R, C, W>(
    kept: Option<(Seq<Float32>, Seq<Float32>)>,
    cache_dir: Option<CachePathView>,
    bits: usize,
    dim: usize,
    read: R,
    compute: C,
    write: W,
    result: CodebookParts,
) -> bool where
    R: FnOnce(&CachePath) -> Option<Vec<u8>>,
    C: Fn(usize, usize) -> CodebookParts,
    W: FnOnce(&CachePath, &Vec<u8>) -> Result<(), E>,
 {
    match kept {
        Some(parts) => (result.0@, result.1@) == parts,
        None => match cache_dir {
            Some(dir) => served_from_dir(dir, bits, dim, read, compute, write, result),
            None => compute.ensures((bits, dim), result),
        },
    }
}

/// The contents of a cache directory's path, if there is one.
pub open spec fn dir_view(cache_dir: Option<CachePath>) -> Option<CachePathView> {
    match cache_dir {
        Some(dir) => Some(dir@),
        None => None,
    }
}

/// A codebook from the process cache, from the cache directory, or computed.
///
/// The cache directory only saves time: where there is none, or nothing comes
/// out of it, the codebook is computed. Whatever comes out is kept in the
/// process cache, so that the next call for the key gives the same again.
///
/// `read`, `compute` and `write` are as in [`load_or_create_codebook`].
pub fn cached_codebook<E, R, C, W>(
    cache: &mut CodebookCache,
    cache_dir: &Option<CachePath>,
    bits: usize,
    dim: usize,
    read: R,
    compute: &C,
    write: W,
) -> (result: CodebookParts) where
    R: FnOnce(&CachePath) -> Option<Vec<u8>>,
    C: Fn(usize, usize) -> CodebookParts,
    W: FnOnce(&CachePath, &Vec<u8>) -> Result<(), E>,

    requires
        old(cache).lookup(bits, dim) is None ==> serving_ready(
            dir_view(*cache_dir),
            bits,
            dim,
            read,
            *compute,
            write,
        ),
    ensures
        final(cache).lookup(bits, dim) == Some((result.0@, result.1@)),
        forall|b: usize, d: usize|
            (b, d) != (bits, dim) ==> #[trigger] final(cache).lookup(b, d) == old(cache).lookup(b, d),
        served(
            old(cache).lookup(bits, dim),
            dir_view(*cache_dir),
            bits,
            dim,
            read,
            *compute,
            write,
            result,
        ),
{
    match cache.get_cached_codebook(bits, dim) {
        Some(parts) => {
            return parts;
        },
        None => {},
    }
    let parts: CodebookParts = match cache_dir {
        Some(dir) => {
            let outcome: Result<CodebookParts, CacheError<E>> = load_or_create_codebook(
                dir,
                bits,
                dim,
                read,
                compute,
                write,
            );
            match outcome {
                Ok(parts) => parts,
                Err(_) => compute(bits, dim),
            }
        },
        None => compute(bits, dim),
    };
    cache.insert_cached_codebook(bits, dim, &parts);
    parts
}

/// The caches only save time: where computing a key's codebook always gives
/// `book`, and the key's file and the process cache hold that or nothing that
/// is used, `book` is what comes out, whatever else is in them and whether or
/// not files can be read and written.
pub proof fn lemma_caches_keep_the_value<E, R, C, W>(
    kept: Option<(Seq<Float32>, Seq<Float32>)>,
    cache_dir: Option<CachePathView>,
    bits: usize,
    dim: usize,
    read: R,
    compute: C,
    write: W,
    result: CodebookParts,
    book: (Seq<Float32>, Seq<Float32>),
) where
    R: FnOnce(&CachePath) -> Option<Vec<u8>>,
    C: Fn(usize, usize) -> CodebookParts,
    W: FnOnce(&CachePath, &Vec<u8>) -> Result<(), E>,

    requires
        served(kept, cache_dir, bits, dim, read, compute, write, result),
        kept is Some ==> kept == Some(book),
        forall|made: CodebookParts| #[trigger]
            compute.ensures((bits, dim), made) ==> (made.0@, made.1@) == book,
        cache_dir matches Some(dir) ==> forall|path: &CachePath, contents: Option<Vec<u8>>|
            path@ == cache_file_path(dir, bits, dim) && #[trigger] read.ensures((path,), contents)
                && found(contents, bits, dim) ==> crate::codebook::loaded(
                contents->0@,
                bits,
                dim,
            )->Ok_0 == book,
    ensures
        (result.0@, result.1@) == book,
{
}

// ---------------------------------------------------------------------------
// Putting a file in place
// ---------------------------------------------------------------------------

/// What is to be done next to put a file in place.
#[derive(Clone, Copy, Debug, PartialEq, Eq, Structural)]
pub enum SaveStep {
    /// Create the directories above the target.
    CreateParent,
    /// Write the temporary file.
    WriteTemp,
    /// Rename the temporary file to the target.
    Rename,
    /// Remove the target, which stands in the way of the renaming.
    RemoveTarget,
    /// Rename the temporary file to the target, now out of the way.
    RenameAgain,
    /// Remove the temporary file; whether that works does not matter.
    RemoveTemp,
    /// The target holds the new file.
    Saved,
    /// The failure that ended the run is to be reported.
    Failed,
}

/// How a step went.
#[derive(Clone, Copy, Debug, PartialEq, Eq, Structural)]
pub enum Outcome {
    Done,
    /// The target exists already.
    AlreadyExists,
    /// Any other failure.
    Error,
}

/// The step after a step.
pub open spec fn save_step_after(step: SaveStep, outcome: Outcome) -> SaveStep {
    match (step, outcome) {
        (SaveStep::CreateParent, Outcome::Done) => SaveStep::WriteTemp,
        (SaveStep::CreateParent, _) => SaveStep::Failed,
        (SaveStep::WriteTemp, Outcome::Done) => SaveStep::Rename,
        (SaveStep::Rename, Outcome::Done) => SaveStep::Saved,
        (SaveStep::Rename, Outcome::AlreadyExists) => SaveStep::RemoveTarget,
        (SaveStep::RemoveTarget, Outcome::Done) => SaveStep::RenameAgain,
        (SaveStep::RenameAgain, Outcome::Done) => SaveStep::Saved,
        (SaveStep::WriteTemp, _) => SaveStep::RemoveTemp,
        (SaveStep::Rename, _) => SaveStep::RemoveTemp,
        (SaveStep::RemoveTarget, _) => SaveStep::RemoveTemp,
        (SaveStep::RenameAgain, _) => SaveStep::RemoveTemp,
        (SaveStep::RemoveTemp, _) => SaveStep::Failed,
        (SaveStep::Saved, _) => SaveStep::Saved,
        (SaveStep::Failed, _) => SaveStep::Failed,
    }
}

/// The first step: a target with a parent directory has it created first.
pub fn first_save_step(has_parent: bool) -> (result: SaveStep)
    ensures
        result == if has_parent {
            SaveStep::CreateParent
        } else {
            SaveStep::WriteTemp
        },
{
    if has_parent {
        SaveStep::CreateParent
    } else {
        SaveStep::WriteTemp
    }
}

/// The step after a step, given how that step went.
pub fn next_save_step(step: SaveStep, outcome: Outcome) -> (result: SaveStep)
    ensures
        result == save_step_after(step, outcome),
{
    match step {
        SaveStep::CreateParent => match outcome {
            Outcome::Done => SaveStep::WriteTemp,
            _ => SaveStep::Failed,
        },
        SaveStep::WriteTemp => match outcome {
            Outcome::Done => SaveStep::Rename,
            _ => SaveStep::RemoveTemp,
        },
        SaveStep::Rename => match outcome {
            Outcome::Done => SaveStep::Saved,
            Outcome::AlreadyExists => SaveStep::RemoveTarget,
            Outcome::Error => SaveStep::RemoveTemp,
        },
        SaveStep::RemoveTarget => match outcome {
            Outcome::Done => SaveStep::RenameAgain,
            _ => SaveStep::RemoveTemp,
        },
        SaveStep::RenameAgain => match outcome {
            Outcome::Done => SaveStep::Saved,
            _ => SaveStep::RemoveTemp,
        },
        SaveStep::RemoveTemp => SaveStep::Failed,
        SaveStep::Saved => SaveStep::Saved,
        SaveStep::Failed => SaveStep::Failed,
    }
}

/// The steps that a run takes, one more than the outcomes that drove it.
pub open spec fn save_run(first: SaveStep, outcomes: Seq<Outcome>) -> Seq<SaveStep>
    decreases outcomes.len(),
{
    if outcomes.len() == 0 {
        seq![first]
    } else {
        let before = save_run(first, outcomes.drop_last());
        before.push(save_step_after(before.last(), outcomes.last()))
    }
}

/// How far a step is from the end at most.
spec fn save_rank(step: SaveStep) -> int {
    match step {
        SaveStep::CreateParent => 6,
        SaveStep::WriteTemp => 5,
        SaveStep::Rename => 4,
        SaveStep::RemoveTarget => 3,
        SaveStep::RenameAgain => 2,
        SaveStep::RemoveTemp => 1,
        SaveStep::Saved => 0,
        SaveStep::Failed => 0,
    }
}

proof fn lemma_save_run_rank(first: SaveStep, outcomes: Seq<Outcome>)
    ensures
        save_run(first, outcomes).len() == outcomes.len() + 1,
        save_rank(save_run(first, outcomes).last()) == 0 || save_rank(
            save_run(first, outcomes).last(),
        ) + outcomes.len() <= save_rank(first),
    decreases outcomes.len(),
{
    if outcomes.len() > 0 {
        lemma_save_run_rank(first, outcomes.drop_last());
    }
}

/// A run is over after six steps at most, whatever happens.
pub proof fn lemma_save_run_ends(first: SaveStep, outcomes: Seq<Outcome>)
    requires
        outcomes.len() >= 6,
    ensures
        save_run(first, outcomes).last() == SaveStep::Saved || save_run(first, outcomes).last()
            == SaveStep::Failed,
{
    lemma_save_run_rank(first, outcomes);
}

/// No failed run leaves the temporary file to itself: a run that came to write
/// it and failed has gone through its removal afterwards.
pub proof fn lemma_failed_save_removes_temp(first: SaveStep, outcomes: Seq<Outcome>, i: int)
    requires
        0 <= i < save_run(first, outcomes).len(),
        save_run(first, outcomes)[i] == SaveStep::WriteTemp,
        save_run(first, outcomes).last() == SaveStep::Failed,
    ensures
        exists|k: int|
            i < k < save_run(first, outcomes).len() && #[trigger] save_run(first, outcomes)[k]
                == SaveStep::RemoveTemp,
    decreases outcomes.len(),
{
    let run = save_run(first, outcomes);
    lemma_save_run_rank(first, outcomes);
    if outcomes.len() > 0 {
        let before = save_run(first, outcomes.drop_last());
        lemma_save_run_rank(first, outcomes.drop_last());
        assert(i < before.len());
        assert(forall|k: int| 0 <= k < before.len() ==> run[k] == before[k]);
        if before.last() == SaveStep::Failed {
            lemma_failed_save_removes_temp(first, outcomes.drop_last(), i);
            let k = choose|k: int|
                i < k < before.len() && #[trigger] before[k] == SaveStep::RemoveTemp;
            assert(run[k] == SaveStep::RemoveTemp);
        } else if before.last() == SaveStep::RemoveTemp {
            assert(run[before.len() - 1] == SaveStep::RemoveTemp);
        } else {
            assert(before.last() == SaveStep::CreateParent);
            lemma_save_run_stays_behind_parent(first, outcomes.drop_last(), i);
        }
    }
}

/// A run that stands at the creation of the parent has done nothing else yet.
proof fn lemma_save_run_stays_behind_parent(first: SaveStep, outcomes: Seq<Outcome>, i: int)
    requires
        0 <= i < save_run(first, outcomes).len(),
        save_run(first, outcomes).last() == SaveStep::CreateParent,
    ensures
        save_run(first, outcomes)[i] == SaveStep::CreateParent,
{
    lemma_save_run_rank(first, outcomes);
}

/// A run ends well only by a renaming that worked, and the target is removed
/// only where the renaming met it.
pub proof fn lemma_save_run_step(step: SaveStep, outcome: Outcome)
    ensures
        save_step_after(step, outcome) == SaveStep::Saved && step != SaveStep::Saved ==> outcome
            == Outcome::Done && (step == SaveStep::Rename || step == SaveStep::RenameAgain),
        save_step_after(step, outcome) == SaveStep::RemoveTarget ==> step == SaveStep::Rename
            && outcome == Outcome::AlreadyExists,
{
}

// ---------------------------------------------------------------------------
// Spelled out
// ---------------------------------------------------------------------------

/// A path is its root and its names; joining puts a name behind them.
pub proof fn lemma_path_is_its_names(path: CachePath, name: Seq<char>, i: int)
    ensures
        path@.root == path.root@,
        path@.components.len() == path.components@.len(),
        0 <= i < path.components@.len() ==> path@.components[i] == path.components@[i]@,
        path@.join(name).root == path.root@,
        path@.join(name).components.len() == path.components@.len() + 1,
        0 <= i < path.components@.len() ==> path@.join(name).components[i]
            == path.components@[i]@,
        path@.join(name).components.last() == name,
{
}

/// Where codebooks are kept: the directory named outright, where that is not
/// empty; otherwise, on macOS, a place under the home directory, and elsewhere
/// one under the user's cache directory or else under the home directory; a
/// variable that is empty counts as one that is not set.
pub proof fn lemma_cache_dir_cases(platform: Platform, env: EnvPaths)
    ensures
        ({
            let named = env.cache_dir is Some && (env.cache_dir->0)@.len() > 0;
            let xdg = env.xdg_cache_home is Some && (env.xdg_cache_home->0)@.len() > 0;
            let home = env.home is Some && (env.home->0)@.len() > 0;
            let dir = default_cache_dir(platform, env);
            let mac = platform == Platform::MacOs;
            &&& named ==> dir is Some && (dir->0).root == (env.cache_dir->0)@ && (
            dir->0).components.len() == 0
            &&& !named && mac && home ==> dir is Some && (dir->0).root == (env.home->0)@ && (
            dir->0).components == seq!["Library"@, "Caches"@, "turbovec"@, "codebooks"@]
            &&& !named && mac && !home ==> dir is None
            &&& !named && !mac && xdg ==> dir is Some && (dir->0).root == (env.xdg_cache_home->0)@
                && (dir->0).components == seq!["turbovec"@, "codebooks"@]
            &&& !named && !mac && !xdg && home ==> dir is Some && (dir->0).root == (env.home->0)@
                && (dir->0).components == seq![".cache"@, "turbovec"@, "codebooks"@]
            &&& !named && !mac && !xdg && !home ==> dir is None
        }),
        match env.home {
            Some(value) => non_empty(env.home) == if value@.len() > 0 {
                Some(value@)
            } else {
                None
            },
            None => non_empty(env.home) is None,
        },
        CACHE_DIR_VAR@ == "TURBOVEC_CODEBOOK_CACHE_DIR"@,
        XDG_CACHE_HOME_VAR@ == "XDG_CACHE_HOME"@,
        HOME_VAR@ == "HOME"@,
{
}

/// The names of files: the key and the version in the name of a cache file,
/// the process and the time in the extension of a temporary one.
pub proof fn lemma_file_names(dir: CachePathView, bits: usize, dim: usize, pid: nat, nanos: nat)
    ensures
        cache_file_path(dir, bits, dim).root == dir.root,
        cache_file_path(dir, bits, dim).components == dir.components.push(
            "codebook-b"@ + crate::text::decimal_text(bits as nat) + "-d"@
                + crate::text::decimal_text(dim as nat) + "-v"@ + crate::text::decimal_text(1)
                + ".tvcb"@,
        ),
        cache_file_name(bits as nat, dim as nat) == cache_file_path(
            dir,
            bits,
            dim,
        ).components.last(),
        temp_extension_text(pid, nanos) == "tmp-"@ + crate::text::decimal_text(pid) + "-"@
            + crate::text::decimal_text(nanos),
{
}

/// What looking in a directory does, for a good key. The file of the key is
/// read. Where it holds a codebook for the key, that comes out. Otherwise one
/// is computed; one of the wrong size is refused; and the file of any other is
/// written to the same path, and the codebook comes out exactly where that
/// worked.
pub proof fn lemma_lookup_cases<E, R, C, W>(
    cache_dir: CachePathView,
    bits: usize,
    dim: usize,
    read: R,
    compute: C,
    write: W,
    result: Result<CodebookParts, CacheError<E>>,
) where
    R: FnOnce(&CachePath) -> Option<Vec<u8>>,
    C: Fn(usize, usize) -> CodebookParts,
    W: FnOnce(&CachePath, &Vec<u8>) -> Result<(), E>,

    requires
        2 <= bits <= 4,
        2 <= dim <= 4294967295,
        looked_up(cache_dir, bits, dim, read, compute, write, result),
    ensures
        exists|path: CachePath, contents: Option<Vec<u8>>|
            {
                &&& #[trigger] read.ensures((&path,), contents)
                &&& path@.root == cache_dir.root
                &&& path@.components == cache_dir.components.push(
                    cache_file_name(bits as nat, dim as nat),
                )
                &&& contents is Some && crate::codebook::loaded(
                    (contents->0)@,
                    bits,
                    dim,
                ) is Ok ==> {
                    &&& result is Ok
                    &&& (result->Ok_0).0@ == (crate::codebook::loaded(
                        (contents->0)@,
                        bits,
                        dim,
                    )->Ok_0).0
                    &&& (result->Ok_0).1@ == (crate::codebook::loaded(
                        (contents->0)@,
                        bits,
                        dim,
                    )->Ok_0).1
                }
                &&& contents is None || crate::codebook::loaded(
                    (contents->0)@,
                    bits,
                    dim,
                ) is Err ==> exists|made: CodebookParts|
                    {
                        &&& #[trigger] compute.ensures((bits, dim), made)
                        &&& crate::codebook::parts_error(
                            bits,
                            dim,
                            made.0@.len(),
                            made.1@.len(),
                        ) is Some ==> result is Err && result->Err_0 == CacheError::<E>::Codebook(
                            crate::codebook::parts_error(
                                bits,
                                dim,
                                made.0@.len(),
                                made.1@.len(),
                            )->0,
                        )
                        &&& crate::codebook::parts_error(
                            bits,
                            dim,
                            made.0@.len(),
                            made.1@.len(),
                        ) is None ==> exists|file: Vec<u8>, written: Result<(), E>|
                            {
                                &&& #[trigger] write.ensures((&path, &file), written)
                                &&& file@ == crate::codebook::file_bytes(
                                    bits as int,
                                    dim as int,
                                    made.0@,
                                    made.1@,
                                )
                                &&& written is Ok ==> result is Ok && result->Ok_0 == made
                                &&& written is Err ==> result is Err && result->Err_0
                                    == CacheError::<E>::Io(written->Err_0)
                            }
                    }
            },
{
}

/// A bad key is refused before anything is read.
pub proof fn lemma_lookup_checks_the_key_first<E, R, C, W>(
    cache_dir: CachePathView,
    bits: usize,
    dim: usize,
    read: R,
    compute: C,
    write: W,
    result: Result<CodebookParts, CacheError<E>>,
) where
    R: FnOnce(&CachePath) -> Option<Vec<u8>>,
    C: Fn(usize, usize) -> CodebookParts,
    W: FnOnce(&CachePath, &Vec<u8>) -> Result<(), E>,

    requires
        bits < 2 || bits > 4 || dim < 2 || dim > 4294967295,
        looked_up(cache_dir, bits, dim, read, compute, write, result),
    ensures
        result is Err,
        bits < 2 || bits > 4 ==> result->Err_0 == CacheError::<E>::Codebook(
            CodebookError::BitsOutOfRange { bits },
        ),
        2 <= bits <= 4 ==> result->Err_0 == CacheError::<E>::Codebook(
            CodebookError::DimOutOfRange { dim },
        ),
{
}

/// Looking in a directory asks no more of the functions handed in than this:
/// that the key's file can be read; where that gave no codebook for the key,
/// that one can be computed; and that the file of the codebook computed then
/// can be written, to the path that was read. A good file is never written.
pub proof fn lemma_lookup_asks_no_more<E, R, C, W>(
    cache_dir: CachePathView,
    bits: usize,
    dim: usize,
    read: R,
    compute: C,
    write: W,
) where
    R: FnOnce(&CachePath) -> Option<Vec<u8>>,
    C: Fn(usize, usize) -> CodebookParts,
    W: FnOnce(&CachePath, &Vec<u8>) -> Result<(), E>,

    requires
        forall|path: &CachePath|
            path@.root == cache_dir.root && path@.components == cache_dir.components.push(
                cache_file_name(bits as nat, dim as nat),
            ) ==> #[trigger] read.requires((path,)),
        forall|path: &CachePath, contents: Option<Vec<u8>>|
            {
                &&& path@.root == cache_dir.root
                &&& path@.components == cache_dir.components.push(
                    cache_file_name(bits as nat, dim as nat),
                )
                &&& #[trigger] read.ensures((path,), contents)
                &&& contents is None || crate::codebook::loaded((contents->0)@, bits, dim) is Err
            } ==> compute.requires((bits, dim)),
        forall|
            path: &CachePath,
            contents: Option<Vec<u8>>,
            made: CodebookParts,
            file: &Vec<u8>,
        |
            #![trigger read.ensures((path,), contents), compute.ensures((bits, dim), made), write.requires((path, file))]
            {
                &&& path@.root == cache_dir.root
                &&& path@.components == cache_dir.components.push(
                    cache_file_name(bits as nat, dim as nat),
                )
                &&& read.ensures((path,), contents)
                &&& contents is None || crate::codebook::loaded((contents->0)@, bits, dim) is Err
                &&& compute.ensures((bits, dim), made)
                &&& crate::codebook::parts_error(bits, dim, made.0@.len(), made.1@.len()) is None
                &&& file@ == crate::codebook::file_bytes(bits as int, dim as int, made.0@, made.1@)
            } ==> write.requires((path, file)),
    ensures
        lookup_ready(cache_dir, bits, dim, read, compute, write),
{
}

/// Looking for a codebook asks no more than looking in the directory does, and
/// that one can be computed.
pub proof fn lemma_serving_asks_no_more<E, R, C, W>(
    cache_dir: Option<CachePathView>,
    bits: usize,
    dim: usize,
    read: R,
    compute: C,
    write: W,
) where
    R: FnOnce(&CachePath) -> Option<Vec<u8>>,
    C: Fn(usize, usize) -> CodebookParts,
    W: FnOnce(&CachePath, &Vec<u8>) -> Result<(), E>,

    requires
        compute.requires((bits, dim)),
        cache_dir is Some && 2 <= bits <= 4 && 2 <= dim <= 4294967295 ==> lookup_ready(
            cache_dir->0,
            bits,
            dim,
            read,
            compute,
            write,
        ),
    ensures
        serving_ready(cache_dir, bits, dim, read, compute, write),
{
}

/// Where a codebook comes from: the process cache, where that has it; else the
/// directory, where there is one and something came out of it; else it is
/// computed.
pub proof fn lemma_served_cases<E, R, C, W>(
    kept: Option<(Seq<Float32>, Seq<Float32>)>,
    cache_dir: Option<CachePathView>,
    bits: usize,
    dim: usize,
    read: R,
    compute: C,
    write: W,
    result: CodebookParts,
) where
    R: FnOnce(&CachePath) -> Option<Vec<u8>>,
    C: Fn(usize, usize) -> CodebookParts,
    W: FnOnce(&CachePath, &Vec<u8>) -> Result<(), E>,

    requires
        served(kept, cache_dir, bits, dim, read, compute, write, result),
    ensures
        kept is Some ==> result.0@ == (kept->0).0 && result.1@ == (kept->0).1,
        kept is None && cache_dir is None ==> compute.ensures((bits, dim), result),
        kept is None && cache_dir is Some ==> exists|outcome: Result<CodebookParts, CacheError<E>>|
            {
                &&& #[trigger] looked_up(cache_dir->0, bits, dim, read, compute, write, outcome)
                &&& outcome is Ok ==> result == outcome->Ok_0
                &&& outcome is Err ==> compute.ensures((bits, dim), result)
            },
{
}

/// The steps of saving, one by one. Where a step works, the next is taken:
/// the parent, the temporary file, the renaming, the end. A renaming that
/// meets the target has it removed and is tried again. Whatever else fails
/// ends the run, with the temporary file removed first if it may be there.
pub proof fn lemma_save_steps(outcome: Outcome, failure: Outcome)
    requires
        failure != Outcome::Done,
    ensures
        save_step_after(SaveStep::CreateParent, Outcome::Done) == SaveStep::WriteTemp,
        save_step_after(SaveStep::WriteTemp, Outcome::Done) == SaveStep::Rename,
        save_step_after(SaveStep::Rename, Outcome::Done) == SaveStep::Saved,
        save_step_after(SaveStep::Rename, Outcome::AlreadyExists) == SaveStep::RemoveTarget,
        save_step_after(SaveStep::RemoveTarget, Outcome::Done) == SaveStep::RenameAgain,
        save_step_after(SaveStep::RenameAgain, Outcome::Done) == SaveStep::Saved,
        save_step_after(SaveStep::CreateParent, failure) == SaveStep::Failed,
        save_step_after(SaveStep::WriteTemp, failure) == SaveStep::RemoveTemp,
        save_step_after(SaveStep::Rename, Outcome::Error) == SaveStep::RemoveTemp,
        save_step_after(SaveStep::RemoveTarget, failure) == SaveStep::RemoveTemp,
        save_step_after(SaveStep::RenameAgain, failure) == SaveStep::RemoveTemp,
        save_step_after(SaveStep::RemoveTemp, outcome) == SaveStep::Failed,
        save_step_after(SaveStep::Saved, outcome) == SaveStep::Saved,
        save_step_after(SaveStep::Failed, outcome) == SaveStep::Failed,
{
}

} // verus!
