//! Configuration: file-type categories, the default way of organizing, and
//! the limits of a duplicate scan.

use crate::text::{chars_of, lowercase, string_views, to_lowercase};
use vstd::prelude::*;
use vstd::string::StringExecFns;

verus! {

/// A category of files and the extensions that belong to it.
pub struct CategoryModel {
    pub name: Seq<char>,
    pub extensions: Seq<Seq<char>>,
}

/// A named category of files with the extensions that belong to it.
#[derive(Debug, Clone)]
pub struct Category {
    pub name: String,
    pub extensions: Vec<String>,
}

impl View for Category {
    type V = CategoryModel;

    open spec fn view(&self) -> CategoryModel {
        CategoryModel { name: self.name@, extensions: string_views(self.extensions@) }
    }
}

/// Taking each category for its view.
pub open spec fn category_view_of() -> spec_fn(Category) -> CategoryModel {
    |c: Category| c@
}

/// The views of a table of categories.
pub open spec fn table_view(table: Seq<Category>) -> Seq<CategoryModel> {
    table.map_values(category_view_of())
}

/// No two categories of the table have the same name.
pub open spec fn distinct_names(table: Seq<CategoryModel>) -> bool {
    forall|i: int, j: int|
        0 <= i < table.len() && 0 <= j < table.len() && i != j ==> (#[trigger] table[i]).name != (
        #[trigger] table[j]).name
}

/// Rules for organizing files.
#[derive(Debug, Clone)]
pub struct OrganizationConfig {
    /// Category definitions.
    pub categories: Vec<Category>,
    /// The method used when none is given.
    pub default_method: String,
}

/// Limits of the work done in parallel and of the hashing of large files.
#[derive(Debug, Clone)]
pub struct PerformanceConfig {
    /// Number of threads for parallel operations.
    pub threads: usize,
    /// Largest file, in MiB, that a duplicate scan hashes.
    pub max_hash_size_mb: u64,
}

/// The configuration of the tool.
#[derive(Debug, Clone)]
pub struct FerretConfig {
    /// File-type categories, looked up in this order.
    pub file_types: Vec<Category>,
    pub organization: OrganizationConfig,
    pub performance: PerformanceConfig,
}

/// The categories that a fresh configuration holds.
pub open spec fn default_categories() -> Seq<CategoryModel> {
    seq![
        CategoryModel {
            name: "documents"@,
            extensions: seq![
                "pdf"@,
                "doc"@,
                "docx"@,
                "txt"@,
                "md"@,
                "rtf"@,
                "odt"@,
                "tex"@,
                "epub"@,
            ],
        },
        CategoryModel {
            name: "images"@,
            extensions: seq![
                "jpg"@,
                "jpeg"@,
                "png"@,
                "gif"@,
                "bmp"@,
                "svg"@,
                "webp"@,
                "ico"@,
                "tiff"@,
                "raw"@,
            ],
        },
        CategoryModel {
            name: "videos"@,
            extensions: seq![
                "mp4"@,
                "avi"@,
                "mkv"@,
                "mov"@,
                "wmv"@,
                "flv"@,
                "webm"@,
                "m4v"@,
                "mpg"@,
                "mpeg"@,
            ],
        },
        CategoryModel {
            name: "audio"@,
            extensions: seq![
                "mp3"@,
                "wav"@,
                "flac"@,
                "aac"@,
                "ogg"@,
                "wma"@,
                "m4a"@,
                "opus"@,
                "ape"@,
            ],
        },
        CategoryModel {
            name: "archives"@,
            extensions: seq![
                "zip"@,
                "tar"@,
                "gz"@,
                "7z"@,
                "rar"@,
                "bz2"@,
                "xz"@,
                "tgz"@,
                "iso"@,
            ],
        },
        CategoryModel {
            name: "code"@,
            extensions: seq![
                "rs"@,
                "py"@,
                "js"@,
                "ts"@,
                "c"@,
                "cpp"@,
                "h"@,
                "hpp"@,
                "go"@,
                "java"@,
                "rb"@,
                "php"@,
                "swift"@,
                "kt"@,
            ],
        },
        CategoryModel {
            name: "web"@,
            extensions: seq![
                "html"@,
                "css"@,
                "scss"@,
                "sass"@,
                "less"@,
                "json"@,
                "xml"@,
                "yaml"@,
                "yml"@,
            ],
        },
        CategoryModel {
            name: "spreadsheets"@,
            extensions: seq!["xls"@, "xlsx"@, "csv"@, "ods"@],
        },
        CategoryModel {
            name: "presentations"@,
            extensions: seq!["ppt"@, "pptx"@, "odp"@, "key"@],
        },
        CategoryModel {
            name: "executables"@,
            extensions: seq!["exe"@, "msi"@, "app"@, "deb"@, "rpm"@, "apk"@, "dmg"@],
        },
        CategoryModel {
            name: "databases"@,
            extensions: seq!["db"@, "sqlite"@, "sqlite3"@, "sql"@, "mdb"@],
        },
        CategoryModel {
            name: "fonts"@,
            extensions: seq!["ttf"@, "otf"@, "woff"@, "woff2"@, "eot"@],
        },
    ]
}

/// Taking each literal for its characters.
pub open spec fn literal_chars() -> spec_fn(&'static str) -> Seq<char> {
    |s: &'static str| s@
}

pub(crate) fn category(name: &'static str, extensions: Vec<&'static str>) -> (out: Category)
    ensures
        out@ == (CategoryModel {
            name: name@,
            extensions: extensions@.map_values(literal_chars()),
        }),
{
    let mut owned: Vec<String> = Vec::new();
    let mut i: usize = 0;
    while i < extensions.len()
        invariant
            i <= extensions.len(),
            string_views(owned@) == extensions@.take(i as int).map_values(literal_chars()),
        decreases extensions.len() - i,
    {
        let ghost before = owned@;
        let next = String::from_str(extensions[i]);
        owned.push(next);
        proof {
            before.lemma_push_map_commute(chars_of(), next);
            extensions@.take(i as int).lemma_push_map_commute(literal_chars(), extensions@[i as int]);
            assert(extensions@.take(i as int + 1) =~= extensions@.take(i as int).push(
                extensions@[i as int],
            ));
        }
        i += 1;
    }
    proof {
        assert(extensions@.take(i as int) =~= extensions@);
    }
    Category { name: String::from_str(name), extensions: owned }
}

/// The method of organizing that is used when none is configured.
pub fn default_org_method() -> (method: String)
    ensures
        method@ == "type"@,
{
    String::from_str("type")
}

/// The number of threads that is used when none is configured: what the
/// machine reports as available, or 4 where it reports nothing.
pub fn default_threads(available: Option<usize>) -> (threads: usize)
    ensures
        threads == match available {
            Some(n) => n,
            None => 4,
        },
{
    match available {
        Some(n) => n,
        None => 4,
    }
}

/// The largest file that is hashed when nothing is configured, in MiB: 1 GiB.
pub fn default_max_hash_size() -> (mb: u64)
    ensures
        mb == 1024,
{
    1024
}

/// The file-type categories of a fresh configuration.
pub fn default_file_types() -> (types: Vec<Category>)
    ensures
        table_view(types@) == default_categories(),
{
    let mut types: Vec<Category> = Vec::new();
    types.push(
        category("documents", vec!["pdf", "doc", "docx", "txt", "md", "rtf", "odt", "tex", "epub"]),
    );
    types.push(
        category(
            "images",
            vec!["jpg", "jpeg", "png", "gif", "bmp", "svg", "webp", "ico", "tiff", "raw"],
        ),
    );
    types.push(
        category(
            "videos",
            vec!["mp4", "avi", "mkv", "mov", "wmv", "flv", "webm", "m4v", "mpg", "mpeg"],
        ),
    );
    types.push(
        category("audio", vec!["mp3", "wav", "flac", "aac", "ogg", "wma", "m4a", "opus", "ape"]),
    );
    types.push(
        category("archives", vec!["zip", "tar", "gz", "7z", "rar", "bz2", "xz", "tgz", "iso"]),
    );
    types.push(
        category(
            "code",
            vec![
                "rs",
                "py",
                "js",
                "ts",
                "c",
                "cpp",
                "h",
                "hpp",
                "go",
                "java",
                "rb",
                "php",
                "swift",
                "kt",
            ],
        ),
    );
    types.push(
        category("web", vec!["html", "css", "scss", "sass", "less", "json", "xml", "yaml", "yml"]),
    );
    types.push(category("spreadsheets", vec!["xls", "xlsx", "csv", "ods"]));
    types.push(category("presentations", vec!["ppt", "pptx", "odp", "key"]));
    types.push(category("executables", vec!["exe", "msi", "app", "deb", "rpm", "apk", "dmg"]));
    types.push(category("databases", vec!["db", "sqlite", "sqlite3", "sql", "mdb"]));
    types.push(category("fonts", vec!["ttf", "otf", "woff", "woff2", "eot"]));
    proof {
        let got = table_view(types@);
        let want = default_categories();
        assert(got.len() == want.len());
        assert forall|i: int| 0 <= i < got.len() implies got[i] == want[i] by {
            assert(got[i].name == want[i].name);
            assert(got[i].extensions =~= want[i].extensions);
        }
        assert(got =~= want);
    }
    types
}

/// The categories of a fresh configuration have distinct names.
pub proof fn lemma_default_categories_distinct()
    ensures
        distinct_names(default_categories()),
{
    reveal_strlit("documents");
    reveal_strlit("images");
    reveal_strlit("videos");
    reveal_strlit("audio");
    reveal_strlit("archives");
    reveal_strlit("code");
    reveal_strlit("web");
    reveal_strlit("spreadsheets");
    reveal_strlit("presentations");
    reveal_strlit("executables");
    reveal_strlit("databases");
    reveal_strlit("fonts");
    let t = default_categories();
    assert(t[0].name.len() == 9 && t[1].name.len() == 6 && t[2].name.len() == 6);
    assert(t[1].name[0] == 'i' && t[2].name[0] == 'v');
    assert(t[3].name.len() == 5 && t[4].name.len() == 8 && t[5].name.len() == 4);
    assert(t[6].name.len() == 3 && t[7].name.len() == 12 && t[8].name.len() == 13);
    assert(t[9].name.len() == 11 && t[10].name.len() == 9 && t[11].name.len() == 5);
    assert(t[0].name[1] == 'o' && t[10].name[1] == 'a');
    assert(t[3].name[0] == 'a' && t[11].name[0] == 'f');
}

impl Default for OrganizationConfig {
    /// The default categories, organized by type.
    fn default() -> (config: OrganizationConfig)
        ensures
            table_view(config.categories@) == default_categories(),
            config.default_method@ == "type"@,
    {
        OrganizationConfig { categories: default_file_types(), default_method: default_org_method() }
    }
}

impl PerformanceConfig {
    /// The limits of a fresh configuration on a machine that reports
    /// `available` threads.
    pub fn new(available: Option<usize>) -> (config: PerformanceConfig)
        ensures
            config.threads == match available {
                Some(n) => n,
                None => 4,
            },
            config.max_hash_size_mb == 1024,
    {
        PerformanceConfig {
            threads: default_threads(available),
            max_hash_size_mb: default_max_hash_size(),
        }
    }

    /// The largest size in bytes that a duplicate scan hashes, or `None`
    /// where that number does not fit in 64 bits.
    pub fn max_hash_size_bytes(&self) -> (bytes: Option<u64>)
        ensures
            match bytes {
                Some(bytes) => bytes == self.max_hash_size_mb * 1024 * 1024,
                None => self.max_hash_size_mb * 1024 * 1024 > u64::MAX,
            },
    {
        self.max_hash_size_mb.checked_mul(1024 * 1024)
    }
}

/// Whether one of `extensions` is `wanted`.
pub open spec fn lists(extensions: Seq<Seq<char>>, wanted: Seq<char>) -> bool {
    exists|k: int| 0 <= k < extensions.len() && #[trigger] extensions[k] == wanted
}

/// Each extension of a list in lower case.
pub open spec fn lowered(extensions: Seq<Seq<char>>) -> Seq<Seq<char>> {
    extensions.map_values(|e: Seq<char>| lowercase(e))
}

/// Whether `wanted` is one of the strings of a list.
pub fn list_has(list: &Vec<String>, wanted: &String) -> (has: bool)
    ensures
        has == lists(string_views(list@), wanted@),
{
    let ghost views = string_views(list@);
    let mut k: usize = 0;
    while k < list.len()
        invariant
            k <= list.len(),
            views == string_views(list@),
            forall|m: int| 0 <= m < k ==> #[trigger] views[m] != wanted@,
        decreases list.len() - k,
    {
        if list[k] == *wanted {
            assert(views[k as int] == wanted@);
            return true;
        }
        k += 1;
    }
    false
}

/// The place of the first list that holds `wanted`, if any does.
pub fn find_listing(table: &Vec<Vec<String>>, wanted: &String) -> (found: Option<usize>)
    ensures
        match found {
            Some(i) => {
                &&& i < table.len()
                &&& lists(string_views(table[i as int]@), wanted@)
                &&& forall|j: int| 0 <= j < i ==> !lists(string_views(#[trigger] table[j]@), wanted@)
            },
            None => forall|j: int|
                0 <= j < table.len() ==> !lists(string_views(#[trigger] table[j]@), wanted@),
        },
{
    let mut i: usize = 0;
    while i < table.len()
        invariant
            i <= table.len(),
            forall|j: int| 0 <= j < i ==> !lists(string_views(#[trigger] table[j]@), wanted@),
        decreases table.len() - i,
    {
        if list_has(&table[i], wanted) {
            return Some(i);
        }
        i += 1;
    }
    None
}

/// The place of the first category one of whose extensions is `wanted` as it
/// stands, if there is one.
pub fn find_category(table: &Vec<Category>, wanted: &String) -> (found: Option<usize>)
    ensures
        match found {
            Some(i) => {
                &&& i < table.len()
                &&& lists(table[i as int]@.extensions, wanted@)
                &&& forall|j: int| 0 <= j < i ==> !lists((#[trigger] table[j])@.extensions, wanted@)
            },
            None => forall|j: int|
                0 <= j < table.len() ==> !lists((#[trigger] table[j])@.extensions, wanted@),
        },
{
    let mut i: usize = 0;
    while i < table.len()
        invariant
            i <= table.len(),
            forall|j: int| 0 <= j < i ==> !lists((#[trigger] table[j])@.extensions, wanted@),
        decreases table.len() - i,
    {
        if list_has(&table[i].extensions, wanted) {
            return Some(i);
        }
        i += 1;
    }
    None
}

impl FerretConfig {
    /// The tables of the configuration are tables: no category stands twice
    /// in the file types, nor in the categories for organizing.
    pub open spec fn wf(&self) -> bool {
        &&& distinct_names(table_view(self.file_types@))
        &&& distinct_names(table_view(self.organization.categories@))
    }

    /// The configuration that the tool starts from on a machine that reports
    /// `available` threads: the default file types and categories, organizing
    /// by type, and a hashing limit of 1 GiB.
    pub fn init(available: Option<usize>) -> (config: FerretConfig)
        ensures
            table_view(config.file_types@) == default_categories(),
            table_view(config.organization.categories@) == default_categories(),
            config.organization.default_method@ == "type"@,
            config.performance.threads == match available {
                Some(n) => n,
                None => 4,
            },
            config.performance.max_hash_size_mb == 1024,
            config.wf(),
    {
        proof {
            lemma_default_categories_distinct();
        }
        FerretConfig {
            file_types: default_file_types(),
            organization: OrganizationConfig::default(),
            performance: PerformanceConfig::new(available),
        }
    }

    /// The category of a file extension: the name of the first category, in
    /// the order of the table, one of whose extensions equals `extension`
    /// when both are put in lower case.
    pub fn get_category(&self, extension: &str) -> (category: Option<String>)
        ensures
            match category {
                Some(name) => exists|i: int|
                    {
                        &&& 0 <= i < self.file_types.len()
                        &&& name@ == (#[trigger] self.file_types[i]).name@
                        &&& lists(lowered(self.file_types[i]@.extensions), lowercase(extension@))
                        &&& forall|j: int|
                            0 <= j < i ==> !lists(
                                lowered((#[trigger] self.file_types[j])@.extensions),
                                lowercase(extension@),
                            )
                    },
                None => forall|j: int|
                    0 <= j < self.file_types.len() ==> !lists(
                        lowered((#[trigger] self.file_types[j])@.extensions),
                        lowercase(extension@),
                    ),
            },
    {
        let wanted = to_lowercase(extension);
        let mut table: Vec<Vec<String>> = Vec::new();
        let mut i: usize = 0;
        while i < self.file_types.len()
            invariant
                i <= self.file_types.len(),
                table.len() == i,
                forall|j: int|
                    0 <= j < i ==> string_views(#[trigger] table[j]@) == lowered(
                        self.file_types[j]@.extensions,
                    ),
            decreases self.file_types.len() - i,
        {
            let extensions = &self.file_types[i].extensions;
            let mut list: Vec<String> = Vec::new();
            let mut k: usize = 0;
            while k < extensions.len()
                invariant
                    k <= extensions.len(),
                    list.len() == k,
                    forall|m: int|
                        0 <= m < k ==> (#[trigger] list[m])@ == lowercase(extensions[m]@),
                decreases extensions.len() - k,
            {
                list.push(to_lowercase(extensions[k].as_str()));
                k += 1;
            }
            assert(string_views(list@) =~= lowered(self.file_types[i as int]@.extensions));
            table.push(list);
            i += 1;
        }
        match find_listing(&table, &wanted) {
            Some(i) => {
                let name = self.file_types[i].name.clone();
                proof {
                    let types = self.file_types;
                    assert(string_views(table[i as int]@) == lowered(types[i as int]@.extensions));
                    assert forall|j: int| 0 <= j < i implies !lists(
                        lowered((#[trigger] types[j])@.extensions),
                        lowercase(extension@),
                    ) by {
                        assert(string_views(table[j]@) == lowered(types[j]@.extensions));
                    }
                    assert(name@ == types[i as int].name@);
                }
                Some(name)
            },
            None => {
                proof {
                    let types = self.file_types;
                    assert forall|j: int| 0 <= j < types.len() implies !lists(
                        lowered((#[trigger] types[j])@.extensions),
                        lowercase(extension@),
                    ) by {
                        assert(string_views(table[j]@) == lowered(types[j]@.extensions));
                    }
                }
                None
            },
        }
    }
}

} // verus!
