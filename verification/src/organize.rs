//! Organizing files into directories: by type, by date of modification, or by
//! size.

use crate::config::{category, find_category, lists, table_view, Category, CategoryModel};
use crate::search::is_hidden;
use crate::sizes::{class_of, SizeClass};
use crate::text::{decimal, lowercase, same_text, starts_with_char, to_decimal, to_lowercase};
use vstd::prelude::*;
use vstd::string::StringExecFns;

verus! {

/// The parameters of organizing a directory.
pub struct OrganizeCommand {
    pub path: String,
    pub method: String,
    pub output: Option<String>,
    pub dry_run: bool,
    pub copy: bool,
    pub recursive: bool,
    pub hidden: bool,
    pub verbose: bool,
}

/// The ways of organizing.
#[derive(Debug, Clone, Copy, PartialEq, Eq, Structural)]
pub enum OrganizeMethod {
    ByType,
    ByDate,
    BySize,
}

/// A method of organizing that is not known.
#[derive(Debug)]
pub struct UnknownMethod {
    /// The method as it was given.
    pub method: String,
}

/// What is done with a file.
#[derive(Debug, Clone, Copy, PartialEq, Eq, Structural)]
pub enum FileAction {
    /// Only say that the file would be copied.
    ShowCopy,
    /// Only say that the file would be moved.
    ShowMove,
    Copy,
    Move,
}

/// The method that a name stands for: `type` and `extension` for the type,
/// `date`, `size`; nothing for any other name.
pub open spec fn method_named(name: Seq<char>) -> Option<OrganizeMethod> {
    if name == "type"@ || name == "extension"@ {
        Some(OrganizeMethod::ByType)
    } else if name == "date"@ {
        Some(OrganizeMethod::ByDate)
    } else if name == "size"@ {
        Some(OrganizeMethod::BySize)
    } else {
        None
    }
}

/// The categories that files are organized into by their extension.
pub open spec fn builtin_categories() -> Seq<CategoryModel> {
    seq![
        CategoryModel {
            name: "documents"@,
            extensions: seq!["pdf"@, "doc"@, "docx"@, "txt"@, "rtf"@, "odt"@, "tex"@, "md"@],
        },
        CategoryModel {
            name: "images"@,
            extensions: seq![
                "jpg"@,
                "jpeg"@,
                "png"@,
                "gif"@,
                "bmp"@,
                "svg"@,
                "webp"@,
                "ico"@,
                "tiff"@,
            ],
        },
        CategoryModel {
            name: "videos"@,
            extensions: seq!["mp4"@, "avi"@, "mkv"@, "mov"@, "wmv"@, "flv"@, "webm"@, "m4v"@],
        },
        CategoryModel {
            name: "audio"@,
            extensions: seq!["mp3"@, "wav"@, "flac"@, "aac"@, "ogg"@, "wma"@, "m4a"@, "opus"@],
        },
        CategoryModel {
            name: "archives"@,
            extensions: seq!["zip"@, "rar"@, "7z"@, "tar"@, "gz"@, "bz2"@, "xz"@, "iso"@],
        },
        CategoryModel {
            name: "code"@,
            extensions: seq![
                "rs"@,
                "py"@,
                "js"@,
                "ts"@,
                "java"@,
                "c"@,
                "cpp"@,
                "h"@,
                "hpp"@,
                "go"@,
                "rb"@,
                "php"@,
                "swift"@,
                "kt"@,
                "cs"@,
                "sh"@,
                "bash"@,
                "zsh"@,
            ],
        },
        CategoryModel {
            name: "web"@,
            extensions: seq![
                "html"@,
                "css"@,
                "scss"@,
                "sass"@,
                "less"@,
                "json"@,
                "xml"@,
                "yaml"@,
                "yml"@,
            ],
        },
        CategoryModel {
            name: "spreadsheets"@,
            extensions: seq!["xls"@, "xlsx"@, "csv"@, "ods"@],
        },
        CategoryModel {
            name: "presentations"@,
            extensions: seq!["ppt"@, "pptx"@, "odp"@, "key"@],
        },
        CategoryModel {
            name: "executables"@,
            extensions: seq!["exe"@, "msi"@, "app"@, "deb"@, "rpm"@, "apk"@, "dmg"@],
        },
        CategoryModel {
            name: "databases"@,
            extensions: seq!["db"@, "sqlite"@, "sql"@, "mdb"@],
        },
        CategoryModel { name: "fonts"@, extensions: seq!["ttf"@, "otf"@, "woff"@, "woff2"@] },
    ]
}

/// The directory for files whose extension no category lists: `no-extension`
/// for files without one, else the extension followed by `-files`.
pub open spec fn fallback_category(extension: Seq<char>) -> Seq<char> {
    if extension.len() == 0 {
        "no-extension"@
    } else {
        extension + "-files"@
    }
}

/// `name` is the category of `extension` by a table: the name of the first
/// category that lists the extension as it stands, or the fallback where none
/// does.
pub open spec fn is_category_of(
    table: Seq<CategoryModel>,
    extension: Seq<char>,
    name: Seq<char>,
) -> bool {
    ||| exists|i: int|
        {
            &&& 0 <= i < table.len()
            &&& name == (#[trigger] table[i]).name
            &&& lists(table[i].extensions, extension)
            &&& forall|j: int| 0 <= j < i ==> !lists((#[trigger] table[j]).extensions, extension)
        }
    ||| {
        &&& name == fallback_category(extension)
        &&& forall|j: int| 0 <= j < table.len() ==> !lists((#[trigger] table[j]).extensions, extension)
    }
}

/// The name of the directory for the files of a month: the year, a slash, the
/// month in two digits, a dash, and the month's name.
pub open spec fn date_folder_name(year: int, month: nat, month_name: Seq<char>) -> Seq<char> {
    (if year < 0 {
        seq!['-'] + decimal((-year) as nat)
    } else {
        decimal(year as nat)
    }) + seq!['/'] + (if month < 10 {
        seq!['0'] + decimal(month)
    } else {
        decimal(month)
    }) + seq!['-'] + month_name
}

/// The name that is tried when a file of the wanted name exists: the stem, an
/// underscore, a number, and the extension with its dot.
pub open spec fn conflict_name_of(stem: Seq<char>, number: nat, extension: Seq<char>) -> Seq<char> {
    stem + seq!['_'] + decimal(number) + extension
}

/// A step in the search for a name that is free.
#[derive(Debug, Clone, Copy, PartialEq, Eq, Structural)]
pub enum ConflictStep {
    /// Try the name with this number.
    Try(u32),
    /// All numbers are taken.
    GiveUp,
}

/// The largest number that is tried.
pub const LAST_CONFLICT_NUMBER: u32 = 999;

/// The categories that files are organized into by their extension.
pub fn organize_categories() -> (table: Vec<Category>)
    ensures
        table_view(table@) == builtin_categories(),
{
    let mut table: Vec<Category> = Vec::new();
    table.push(category("documents", vec!["pdf", "doc", "docx", "txt", "rtf", "odt", "tex", "md"]));
    table.push(
        category("images", vec!["jpg", "jpeg", "png", "gif", "bmp", "svg", "webp", "ico", "tiff"]),
    );
    table.push(category("videos", vec!["mp4", "avi", "mkv", "mov", "wmv", "flv", "webm", "m4v"]));
    table.push(category("audio", vec!["mp3", "wav", "flac", "aac", "ogg", "wma", "m4a", "opus"]));
    table.push(category("archives", vec!["zip", "rar", "7z", "tar", "gz", "bz2", "xz", "iso"]));
    table.push(
        category(
            "code",
            vec![
                "rs",
                "py",
                "js",
                "ts",
                "java",
                "c",
                "cpp",
                "h",
                "hpp",
                "go",
                "rb",
                "php",
                "swift",
                "kt",
                "cs",
                "sh",
                "bash",
                "zsh",
            ],
        ),
    );
    table.push(
        category("web", vec!["html", "css", "scss", "sass", "less", "json", "xml", "yaml", "yml"]),
    );
    table.push(category("spreadsheets", vec!["xls", "xlsx", "csv", "ods"]));
    table.push(category("presentations", vec!["ppt", "pptx", "odp", "key"]));
    table.push(category("executables", vec!["exe", "msi", "app", "deb", "rpm", "apk", "dmg"]));
    table.push(category("databases", vec!["db", "sqlite", "sql", "mdb"]));
    table.push(category("fonts", vec!["ttf", "otf", "woff", "woff2"]));
    proof {
        let got = table_view(table@);
        let want = builtin_categories();
        assert(got.len() == want.len());
        assert forall|i: int| 0 <= i < got.len() implies got[i] == want[i] by {
            assert(got[i].name == want[i].name);
            assert(got[i].extensions =~= want[i].extensions);
        }
        assert(got =~= want);
    }
    table
}

/// The category of an extension by a table. The extension is looked up as it
/// stands.
pub fn categorize(table: &Vec<Category>, extension: &String) -> (name: String)
    ensures
        is_category_of(table_view(table@), extension@, name@),
{
    let ghost model = table_view(table@);
    proof {
        assert forall|j: int| 0 <= j < table.len() implies (#[trigger] model[j]) == table[j]@ by {}
    }
    match find_category(table, extension) {
        Some(i) => {
            let name = table[i].name.clone();
            proof {
                assert(name@ == model[i as int].name);
                assert(lists(model[i as int].extensions, extension@));
                assert forall|j: int| 0 <= j < i implies !lists(
                    (#[trigger] model[j]).extensions,
                    extension@,
                ) by {
                    assert(model[j] == table[j]@);
                }
            }
            name
        },
        None => {
            proof {
                assert forall|j: int| 0 <= j < model.len() implies !lists(
                    (#[trigger] model[j]).extensions,
                    extension@,
                ) by {
                    assert(model[j] == table[j]@);
                }
            }
            if extension.as_str().is_empty() {
                String::from_str("no-extension")
            } else {
                let mut name = extension.clone();
                name.append("-files");
                name
            }
        },
    }
}

/// The name of the directory for the files of a month.
pub fn date_folder(year: i32, month: u32, month_name: &str) -> (name: String)
    ensures
        name@ == date_folder_name(year as int, month as nat, month_name@),
{
    let mut name = String::new();
    if year < 0 {
        name.append("-");
        proof {
            reveal_strlit("-");
        }
        let positive = -(year as i64);
        name.append(to_decimal(positive as u64).as_str());
    } else {
        name.append(to_decimal(year as u64).as_str());
    }
    name.append("/");
    if month < 10 {
        name.append("0");
    }
    name.append(to_decimal(month as u64).as_str());
    name.append("-");
    name.append(month_name);
    proof {
        reveal_strlit("-");
        reveal_strlit("/");
        reveal_strlit("0");
        assert("-"@ =~= seq!['-']);
        assert("/"@ =~= seq!['/']);
        assert("0"@ =~= seq!['0']);
        assert(name@ =~= date_folder_name(year as int, month as nat, month_name@));
    }
    name
}

/// The name that is tried when a file of the wanted name exists. The
/// extension comes with its dot, or is empty.
pub fn conflict_name(stem: &str, number: u32, extension: &str) -> (name: String)
    ensures
        name@ == conflict_name_of(stem@, number as nat, extension@),
{
    let mut name = String::from_str(stem);
    name.append("_");
    name.append(to_decimal(number as u64).as_str());
    name.append(extension);
    proof {
        reveal_strlit("_");
        assert("_"@ =~= seq!['_']);
    }
    name
}

/// The first step when the wanted name is taken: try the number 1.
pub fn first_conflict_step() -> (step: ConflictStep)
    ensures
        step == ConflictStep::Try(1),
{
    ConflictStep::Try(1)
}

/// The step after the name with `tried` was found taken: the next number, up
/// to 999; after that there is nothing left to try.
pub fn next_conflict_step(tried: u32) -> (step: ConflictStep)
    ensures
        step == if tried < LAST_CONFLICT_NUMBER {
            ConflictStep::Try((tried + 1) as u32)
        } else {
            ConflictStep::GiveUp
        },
{
    if tried < LAST_CONFLICT_NUMBER {
        ConflictStep::Try(tried + 1)
    } else {
        ConflictStep::GiveUp
    }
}

impl OrganizeCommand {
    /// The method of organizing, or the error that it is not known.
    pub fn organize_method(&self) -> (method: Result<OrganizeMethod, UnknownMethod>)
        ensures
            match method {
                Ok(m) => method_named(self.method@) == Some(m),
                Err(error) => method_named(self.method@) is None && error.method@ == self.method@,
            },
    {
        let name = self.method.as_str();
        if same_text(name, "type") || same_text(name, "extension") {
            Ok(OrganizeMethod::ByType)
        } else if same_text(name, "date") {
            Ok(OrganizeMethod::ByDate)
        } else if same_text(name, "size") {
            Ok(OrganizeMethod::BySize)
        } else {
            Err(UnknownMethod { method: self.method.clone() })
        }
    }

    /// How deep the walk goes: without limit where it is recursive, else one
    /// level.
    pub fn walk_depth(&self) -> (depth: Option<usize>)
        ensures
            depth == if self.recursive {
                None
            } else {
                Some(1usize)
            },
    {
        if self.recursive {
            None
        } else {
            Some(1)
        }
    }

    /// Whether the walk takes an entry, and goes into it if it is a
    /// directory: hidden entries are left out unless they are asked for.
    pub fn should_process_entry(&self, file_name: &str, depth: usize) -> (process: bool)
        ensures
            process == (self.hidden || !is_hidden(file_name@, depth)),
    {
        if !self.hidden {
            if starts_with_char(file_name, '.') && depth > 0 {
                return false;
            }
        }
        true
    }

    /// The category of a file with the given extension: the extension is put
    /// in lower case and looked up among the categories of organizing.
    pub fn categorize_file(&self, extension: &str) -> (name: String)
        ensures
            is_category_of(builtin_categories(), lowercase(extension@), name@),
    {
        let lower = to_lowercase(extension);
        let table = organize_categories();
        categorize(&table, &lower)
    }

    /// The directory below the output directory that a file of `size` bytes
    /// goes to when organizing by size.
    pub fn size_folder(&self, size: u64) -> (name: &'static str)
        ensures
            name@ == class_of(size).folder_name(),
    {
        SizeClass::of(size).folder()
    }

    /// What is done with each file: shown only in a dry run, else copied or
    /// moved.
    pub fn action(&self) -> (action: FileAction)
        ensures
            action == if self.dry_run {
                if self.copy {
                    FileAction::ShowCopy
                } else {
                    FileAction::ShowMove
                }
            } else if self.copy {
                FileAction::Copy
            } else {
                FileAction::Move
            },
    {
        if self.dry_run {
            if self.copy {
                FileAction::ShowCopy
            } else {
                FileAction::ShowMove
            }
        } else if self.copy {
            FileAction::Copy
        } else {
            FileAction::Move
        }
    }
}

} // verus!
