use vstd::prelude::*;
use crate::uri::{clone_chars, clone_bytes, chars_eq};
use crate::error::{WrapError, ErrV};
use crate::wrapper::{Wrapper, WrapperV, MethodV};
use crate::manifest::{WrapManifest, DeserializeManifestOptions, deserialize_manifest_result,
    deserialize_polywrap_manifest};

verus! {

/// A file name paired with its contents.
pub struct MemoryFile {
    pub name: Vec<char>,
    pub contents: Vec<u8>,
}

/// Mathematical value of a [`MemoryFile`].
#[verifier::ext_equal]
pub struct MemoryFileV {
    pub name: Seq<char>,
    pub contents: Seq<u8>,
}

impl View for MemoryFile {
    type V = MemoryFileV;

    open spec fn view(&self) -> MemoryFileV {
        MemoryFileV { name: self.name@, contents: self.contents@ }
    }
}

impl Clone for MemoryFile {
    /// The copy has the same view.
    fn clone(&self) -> (r: Self)
        ensures
            r@ == self@,
    {
        MemoryFile { name: clone_chars(&self.name), contents: clone_bytes(&self.contents) }
    }
}

/// The contents of the first file named `name`, if any.
pub open spec fn files_lookup(files: Seq<MemoryFileV>, name: Seq<char>) -> Option<Seq<u8>>
    decreases files.len(),
{
    if files.len() == 0 {
        None
    } else if files[0].name == name {
        Some(files[0].contents)
    } else {
        files_lookup(files.drop_first(), name)
    }
}

/// Serves files from memory; packages read their manifest and module through
/// it when those bytes were not handed over directly.
pub struct InMemoryFileReader {
    pub files: Vec<MemoryFile>,
}

impl View for InMemoryFileReader {
    type V = Seq<MemoryFileV>;

    open spec fn view(&self) -> Seq<MemoryFileV> {
        Seq::new(self.files@.len(), |i: int| self.files@[i]@)
    }
}

impl InMemoryFileReader {
    /// An empty reader.
    pub fn new() -> (r: InMemoryFileReader)
        ensures
            r@.len() == 0,
    {
        InMemoryFileReader { files: Vec::new() }
    }

    /// Adds a file.
    pub fn add_file(&mut self, name: Vec<char>, contents: Vec<u8>)
        ensures
            final(self)@ == old(self)@.push(MemoryFileV { name: name@, contents: contents@ }),
    {
        self.files.push(MemoryFile { name, contents });
        proof {
            assert(self@ =~= old(self)@.push(MemoryFileV { name: name@, contents: contents@ }));
        }
    }

    /// Reads a file by name.
    pub fn read_file(&self, name: &Vec<char>) -> (r: Result<Vec<u8>, WrapError>)
        ensures
            match r {
                Ok(b) => files_lookup(self@, name@) == Some(b@),
                Err(e) => files_lookup(self@, name@) is None && e is NotFound,
            },
    {
        proof {
            assert(self@.skip(0) =~= self@);
        }
        let mut i: usize = 0;
        while i < self.files.len()
            invariant
                i <= self.files@.len(),
                files_lookup(self@, name@) == files_lookup(self@.skip(i as int), name@),
            decreases self.files.len() - i,
        {
            proof {
                assert(self@.skip(i as int)[0] == self@[i as int]);
            }
            if chars_eq(&self.files[i].name, name) {
                return Ok(clone_bytes(&self.files[i].contents));
            }
            i += 1;
            proof {
                assert(self@.skip(i as int) =~= self@.skip(i - 1).drop_first());
            }
        }
        proof {
            assert(self@.skip(i as int).len() == 0);
        }
        Err(WrapError::NotFound)
    }
}

impl Clone for InMemoryFileReader {
    /// The copy has the same view.
    fn clone(&self) -> (r: Self)
        ensures
            r@ == self@,
    {
        let mut files: Vec<MemoryFile> = Vec::new();
        let mut i: usize = 0;
        while i < self.files.len()
            invariant
                i <= self.files@.len(),
                files@.len() == i,
                forall|j: int| 0 <= j < i ==> files@[j]@ == #[trigger] self.files@[j]@,
            decreases self.files.len() - i,
        {
            files.push(self.files[i].clone());
            i += 1;
        }
        let r = InMemoryFileReader { files };
        proof {
            assert(r@ =~= self@);
        }
        r
    }
}

/// A package is a factory for a wrapper.
pub trait WrapPackage {
    /// The wrapper this package produces, or the error it fails with.
    spec fn created_wrapper(&self) -> Result<WrapperV, ErrV>;

    /// Produces this package's wrapper.
    fn create_wrapper(&self) -> (r: Result<Wrapper, WrapError>)
        ensures
            match (r, self.created_wrapper()) {
                (Ok(w), Ok(wv)) => w@ == wv,
                (Err(e), Err(ev)) => e@ == ev,
                _ => false,
            },
    ;
}

/// Mathematical value of a [`WasmPackage`].
#[verifier::ext_equal]
pub struct WasmPackageV {
    pub files: Seq<MemoryFileV>,
    pub manifest: Option<Seq<u8>>,
    pub wasm_module: Option<Seq<u8>>,
}

/// A package backed by a WebAssembly module: the module bytes are held
/// directly or read from a file reader under the name `wrap.wasm`, the
/// manifest bytes likewise under `wrap.info`.
pub struct WasmPackage {
    pub file_reader: InMemoryFileReader,
    pub manifest: Option<Vec<u8>>,
    pub wasm_module: Option<Vec<u8>>,
}

impl View for WasmPackage {
    type V = WasmPackageV;

    open spec fn view(&self) -> WasmPackageV {
        WasmPackageV {
            files: self.file_reader@,
            manifest: match self.manifest {
                Some(m) => Some(m@),
                None => None,
            },
            wasm_module: match self.wasm_module {
                Some(m) => Some(m@),
                None => None,
            },
        }
    }
}

/// The module bytes a [`WasmPackage`] serves: the bytes held directly, or the
/// `wrap.wasm` file.
pub open spec fn wasm_module_of(p: WasmPackageV) -> Option<Seq<u8>> {
    match p.wasm_module {
        Some(m) => Some(m),
        None => files_lookup(p.files, "wrap.wasm"@),
    }
}

impl WasmPackage {
    /// Builds a package over a file reader, with optional manifest and module
    /// bytes that take precedence over the reader's files.
    pub fn new(
        file_reader: InMemoryFileReader,
        manifest: Option<Vec<u8>>,
        wasm_module: Option<Vec<u8>>,
    ) -> (r: WasmPackage)
        ensures
            r@.files == file_reader@,
            r@.manifest == (match manifest {
                Some(m) => Some(m@),
                None => None::<Seq<u8>>,
            }),
            r@.wasm_module == (match wasm_module {
                Some(m) => Some(m@),
                None => None::<Seq<u8>>,
            }),
    {
        WasmPackage { file_reader, manifest, wasm_module }
    }

    /// The module bytes, from memory or from the `wrap.wasm` file.
    pub fn get_wasm_module(&self) -> (r: Result<Vec<u8>, WrapError>)
        ensures
            match r {
                Ok(b) => wasm_module_of(self@) == Some(b@),
                Err(e) => wasm_module_of(self@) is None && e is NotFound,
            },
    {
        match &self.wasm_module {
            Some(m) => Ok(clone_bytes(m)),
            None => {
                let mut name: Vec<char> = Vec::new();
                name.push('w');
                name.push('r');
                name.push('a');
                name.push('p');
                name.push('.');
                name.push('w');
                name.push('a');
                name.push('s');
                name.push('m');
                proof {
                    assert(name@ =~= "wrap.wasm"@) by {
                        reveal_strlit("wrap.wasm");
                    };
                }
                self.file_reader.read_file(&name)
            },
        }
    }
}

impl Clone for WasmPackage {
    /// The copy has the same view.
    fn clone(&self) -> (r: Self)
        ensures
            r@ == self@,
    {
        let r = WasmPackage {
            file_reader: self.file_reader.clone(),
            manifest: match &self.manifest {
                Some(m) => Some(clone_bytes(m)),
                None => None,
            },
            wasm_module: match &self.wasm_module {
                Some(m) => Some(clone_bytes(m)),
                None => None,
            },
        };
        proof {
            assert(r@ =~= self@);
        }
        r
    }
}

impl WrapPackage for WasmPackage {
    /// A wrapper carrying the module bytes, produced only when the package's
    /// manifest reads and deserializes; a module or manifest failure
    /// propagates.  The execution engine for the module bytes is outside
    /// this crate, so the wrapper answers no method itself.
    open spec fn created_wrapper(&self) -> Result<WrapperV, ErrV> {
        match wasm_module_of(self@) {
            None => Err(ErrV::NotFound),
            Some(m) => match manifest_result(self@) {
                Err(e) => Err(e),
                Ok(f) => Ok(WrapperV { methods: Seq::empty(), module: Some(m) }),
            },
        }
    }

    fn create_wrapper(&self) -> (r: Result<Wrapper, WrapError>) {
        let module = self.get_wasm_module()?;
        let manifest = self.get_manifest(None)?;
        let r = Wrapper::from_module(module);
        proof {
            assert(r@ =~= (WrapperV {
                methods: Seq::<MethodV>::empty(),
                module: Some(wasm_module_of(self@)->0),
            }));
        }
        Ok(r)
    }
}

/// A package whose wrapper is implemented natively in this crate.
pub struct PluginPackage {
    pub wrapper: Wrapper,
}

impl View for PluginPackage {
    type V = WrapperV;

    open spec fn view(&self) -> WrapperV {
        self.wrapper@
    }
}

impl PluginPackage {
    /// Builds a package around a native wrapper.
    pub fn new(wrapper: Wrapper) -> (r: PluginPackage)
        ensures
            r@ == wrapper@,
    {
        PluginPackage { wrapper }
    }
}

impl Clone for PluginPackage {
    /// The copy has the same view.
    fn clone(&self) -> (r: Self)
        ensures
            r@ == self@,
    {
        PluginPackage { wrapper: self.wrapper.clone() }
    }
}

impl WrapPackage for PluginPackage {
    /// The native wrapper itself.
    open spec fn created_wrapper(&self) -> Result<WrapperV, ErrV> {
        Ok(self@)
    }

    fn create_wrapper(&self) -> (r: Result<Wrapper, WrapError>) {
        Ok(self.wrapper.clone())
    }
}

/// Mathematical value of a [`WrapPackageEntry`].
#[verifier::ext_equal]
pub enum PackageV {
    Wasm(WasmPackageV),
    Plugin(WrapperV),
}

/// A package as it is stored in resolution results.
pub enum WrapPackageEntry {
    Wasm(WasmPackage),
    Plugin(PluginPackage),
}

impl View for WrapPackageEntry {
    type V = PackageV;

    open spec fn view(&self) -> PackageV {
        match self {
            WrapPackageEntry::Wasm(p) => PackageV::Wasm(p@),
            WrapPackageEntry::Plugin(p) => PackageV::Plugin(p@),
        }
    }
}

impl Clone for WrapPackageEntry {
    /// The copy has the same view.
    fn clone(&self) -> (r: Self)
        ensures
            r@ == self@,
    {
        match self {
            WrapPackageEntry::Wasm(p) => WrapPackageEntry::Wasm(p.clone()),
            WrapPackageEntry::Plugin(p) => WrapPackageEntry::Plugin(p.clone()),
        }
    }
}

/// The wrapper a stored package produces, or the error it fails with.
pub open spec fn package_created_wrapper(p: PackageV) -> Result<WrapperV, ErrV> {
    match p {
        PackageV::Wasm(w) => match wasm_module_of(w) {
            None => Err(ErrV::NotFound),
            Some(m) => match manifest_result(w) {
                Err(e) => Err(e),
                Ok(f) => Ok(WrapperV { methods: Seq::empty(), module: Some(m) }),
            },
        },
        PackageV::Plugin(w) => Ok(w),
    }
}

impl WrapPackage for WrapPackageEntry {
    /// Dispatches to the held package.
    open spec fn created_wrapper(&self) -> Result<WrapperV, ErrV> {
        package_created_wrapper(self@)
    }

    fn create_wrapper(&self) -> (r: Result<Wrapper, WrapError>) {
        match self {
            WrapPackageEntry::Wasm(p) => p.create_wrapper(),
            WrapPackageEntry::Plugin(p) => p.create_wrapper(),
        }
    }
}

/// The characters that a byte sequence decodes to as UTF-8, if it does.
pub uninterp spec fn utf8_chars(b: Seq<u8>) -> Option<Seq<char>>;

/// Relies on std's core::str::from_utf8: whether bytes decode, and to what,
/// depends on the bytes alone; it accepts exactly valid UTF-8.
#[verifier::external_body]
fn bytes_as_str(b: &[u8]) -> (r: Option<&str>)
    ensures
        (match r {
            Some(s) => utf8_chars(b@) == Some(s@),
            None => utf8_chars(b@) is None,
        }),
{
    core::str::from_utf8(b).ok()
}

/// The manifest bytes a [`WasmPackage`] serves: the bytes held directly, or
/// the `wrap.info` file.
pub open spec fn manifest_bytes_of(p: WasmPackageV) -> Option<Seq<u8>> {
    match p.manifest {
        Some(m) => Some(m),
        None => files_lookup(p.files, "wrap.info"@),
    }
}

/// What reading and deserializing a package's manifest yields: the format
/// string of the accepted manifest, or the error met on the way.
pub open spec fn manifest_result(p: WasmPackageV) -> Result<Seq<char>, ErrV> {
    match manifest_bytes_of(p) {
        None => Err(ErrV::NotFound),
        Some(b) => match utf8_chars(b) {
            None => Err(ErrV::Manifest("the manifest is not valid UTF-8"@)),
            Some(s) => deserialize_manifest_result(s),
        },
    }
}

impl WasmPackage {
    /// Reads the manifest bytes, decodes them as UTF-8 and deserializes
    /// them.
    pub fn get_manifest(&self, options: Option<DeserializeManifestOptions>) -> (r: Result<
        WrapManifest,
        WrapError,
    >)
        ensures
            (match r {
                Ok(m) => manifest_result(self@) == Ok::<Seq<char>, ErrV>(m.format@),
                Err(e) => manifest_result(self@) == Err::<Seq<char>, ErrV>(e@),
            }),
    {
        let bytes: Vec<u8> = match &self.manifest {
            Some(m) => clone_bytes(m),
            None => {
                let mut name: Vec<char> = Vec::new();
                name.push('w');
                name.push('r');
                name.push('a');
                name.push('p');
                name.push('.');
                name.push('i');
                name.push('n');
                name.push('f');
                name.push('o');
                proof {
                    assert(name@ =~= "wrap.info"@) by {
                        reveal_strlit("wrap.info");
                    };
                }
                match self.file_reader.read_file(&name) {
                    Ok(b) => b,
                    Err(e) => {
                        return Err(e);
                    },
                }
            },
        };
        let text: &str = match bytes_as_str(bytes.as_slice()) {
            Some(s) => s,
            None => {
                return Err(
                    WrapError::ManifestError(
                        crate::uri::str_chars("the manifest is not valid UTF-8"),
                    ),
                );
            },
        };
        deserialize_polywrap_manifest(text, options)
    }
}

} // verus!
