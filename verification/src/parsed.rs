//! What the parser hands the loader: a module header's shape, its exposes
//! and imports entries (optionally wrapped in whitespace carriers, which are
//! unwrapped transparently), and the rule mapping a module name to a file.

use vstd::prelude::*;
use vstd::string::*;
use crate::ids::Region;

verus! {

/// One name in an `exposes` (or `provides`) list.
#[derive(Debug)]
pub enum ExposesEntry {
    Ident(String),
    SpaceBefore(Box<ExposesEntry>),
    SpaceAfter(Box<ExposesEntry>),
}

/// One entry in an `imports` list: a module name with the names exposed
/// from it.
#[derive(Debug)]
pub enum ImportsEntry {
    Module(String, Vec<ExposesEntry>),
    SpaceBefore(Box<ImportsEntry>),
    SpaceAfter(Box<ImportsEntry>),
}

/// A parsed value together with the source region it came from.
#[derive(Debug)]
pub struct Located<T> {
    pub region: Region,
    pub value: T,
}

/// A parsed module header.  `Interface` may appear anywhere; `App` is only
/// accepted as the root of a load.
#[derive(Debug)]
pub enum ParsedModule {
    Interface {
        name: String,
        exposes: Vec<Located<ExposesEntry>>,
        imports: Vec<Located<ImportsEntry>>,
    },
    App {
        name: String,
        provides: Vec<Located<ExposesEntry>>,
        imports: Vec<Located<ImportsEntry>>,
    },
}

/// The identifier an exposes entry names, through any whitespace carriers.
pub open spec fn spec_ident_of(e: ExposesEntry) -> Seq<char>
    decreases e,
{
    match e {
        ExposesEntry::Ident(s) => s@,
        ExposesEntry::SpaceBefore(b) => spec_ident_of(*b),
        ExposesEntry::SpaceAfter(b) => spec_ident_of(*b),
    }
}

/// The module name an imports entry names, through any whitespace carriers.
pub open spec fn spec_import_name(e: ImportsEntry) -> Seq<char>
    decreases e,
{
    match e {
        ImportsEntry::Module(n, _) => n@,
        ImportsEntry::SpaceBefore(b) => spec_import_name(*b),
        ImportsEntry::SpaceAfter(b) => spec_import_name(*b),
    }
}

/// The names in a list of strings, as sequences of characters.
pub open spec fn name_views(s: Seq<String>) -> Seq<Seq<char>> {
    Seq::new(s.len(), |i: int| s[i]@)
}

/// The identifiers named by a list of exposes entries, in order.
pub open spec fn idents_of_entries(s: Seq<ExposesEntry>) -> Seq<Seq<char>> {
    Seq::new(s.len(), |i: int| spec_ident_of(s[i]))
}

/// The identifiers an imports entry exposes, in order.
pub open spec fn spec_import_idents(e: ImportsEntry) -> Seq<Seq<char>>
    decreases e,
{
    match e {
        ImportsEntry::Module(_, ex) => idents_of_entries(ex@),
        ImportsEntry::SpaceBefore(b) => spec_import_idents(*b),
        ImportsEntry::SpaceAfter(b) => spec_import_idents(*b),
    }
}

/// Unwraps an exposes entry to the identifier it names.
pub fn ident_from_exposed(entry: &ExposesEntry) -> (r: String)
    ensures
        r@ == spec_ident_of(*entry),
    decreases *entry,
{
    match entry {
        ExposesEntry::Ident(s) => s.clone(),
        ExposesEntry::SpaceBefore(b) => ident_from_exposed(b),
        ExposesEntry::SpaceAfter(b) => ident_from_exposed(b),
    }
}

/// Unwraps an imports entry to the imported module's name and the
/// identifiers exposed from it.
pub fn exposed_from_import(entry: &ImportsEntry) -> (r: (String, Vec<String>))
    ensures
        r.0@ == spec_import_name(*entry),
        name_views(r.1@) == spec_import_idents(*entry),
    decreases *entry,
{
    match entry {
        ImportsEntry::Module(module_name, exposes) => {
            let mut exposed: Vec<String> = Vec::new();
            let mut i: usize = 0;
            while i < exposes.len()
                invariant
                    0 <= i <= exposes@.len(),
                    exposed@.len() == i,
                    name_views(exposed@) =~= idents_of_entries(exposes@).subrange(0, i as int),
                decreases exposes@.len() - i,
            {
                let id = ident_from_exposed(&exposes[i]);
                exposed.push(id);
                proof {
                    assert(name_views(exposed@) =~= idents_of_entries(exposes@).subrange(
                        0,
                        i + 1 as int,
                    ));
                }
                i += 1;
            }
            proof {
                assert(idents_of_entries(exposes@).subrange(
                    0,
                    exposes@.len() as int,
                ) =~= idents_of_entries(exposes@));
            }
            (module_name.clone(), exposed)
        },
        ImportsEntry::SpaceBefore(sub_entry) => exposed_from_import(sub_entry),
        ImportsEntry::SpaceAfter(sub_entry) => exposed_from_import(sub_entry),
    }
}

/// `name` with every dot turned into a path separator.
pub open spec fn dots_to_slashes(name: Seq<char>) -> Seq<char> {
    Seq::new(
        name.len(),
        |i: int|
            if name[i] == '.' {
                '/'
            } else {
                name[i]
            },
    )
}

/// The file a module name resolves to: `src_dir`, then one path component
/// per dot-segment of the name, with the `.roc` extension.
pub open spec fn spec_module_filename(src_dir: Seq<char>, name: Seq<char>) -> Seq<char> {
    src_dir + seq!['/'] + dots_to_slashes(name) + ".roc"@
}

/// Resolves a module name to the file it is loaded from.
pub fn module_filename(src_dir: &str, module_name: &str) -> (r: String)
    ensures
        r@ == spec_module_filename(src_dir@, module_name@),
{
    let mut r = src_dir.to_owned();
    proof {
        reveal_strlit("/");
        assert("/"@ =~= seq!['/']);
    }
    r.append("/");
    let n = module_name.unicode_len();
    let mut i: usize = 0;
    while i < n
        invariant
            0 <= i <= n,
            n == module_name@.len(),
            r@ =~= src_dir@ + seq!['/'] + dots_to_slashes(module_name@.subrange(0, i as int)),
        decreases n - i,
    {
        if module_name.get_char(i) == '.' {
            proof {
                reveal_strlit("/");
                assert("/"@ =~= seq!['/']);
            }
            r.append("/");
        } else {
            let piece = module_name.substring_char(i, i + 1);
            r.append(piece);
        }
        proof {
            assert(r@ =~= src_dir@ + seq!['/'] + dots_to_slashes(
                module_name@.subrange(0, i + 1 as int),
            ));
        }
        i += 1;
    }
    proof {
        assert(module_name@.subrange(0, n as int) =~= module_name@);
    }
    r.append(".roc");
    r
}

} // verus!
