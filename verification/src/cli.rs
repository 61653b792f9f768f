//! The command-line surface as plain data: every command and its arguments.
//! Parsing text into these lives outside the library; the commands' logic
//! takes them as values.
use vstd::prelude::*;

verus! {

/// How results are rendered; rendering itself happens outside the library.
#[derive(Debug, Clone, Copy, PartialEq, Eq, Structural)]
pub enum OutputFormat {
    Json,
    Table,
    Markdown,
}

impl OutputFormat {
    /// The format's name, as the flag spells it.
    pub fn name(&self) -> (r: &'static str)
        ensures
            *self is Json ==> r@ == "json"@,
            *self is Table ==> r@ == "table"@,
            *self is Markdown ==> r@ == "markdown"@,
    {
        match self {
            OutputFormat::Json => "json",
            OutputFormat::Table => "table",
            OutputFormat::Markdown => "markdown",
        }
    }
}

/// The flags every command sees.
#[derive(Debug, Clone, Copy)]
pub struct AppContext {
    pub quiet: bool,
    pub verbose: u8,
    pub dry_run: bool,
}

pub struct Cli {
    pub quiet: bool,
    pub verbose: u8,
    pub dry_run: bool,
    pub command: Commands,
}

pub enum Commands {
    Auth(AuthCommand),
    Space(SpaceCommand),
    Page(PageCommand),
    Search(SearchCommand),
    Attachment(AttachmentCommand),
    Label(LabelCommand),
    Comment(CommentCommand),
    Export(ExportArgs),
    CopyTree(CopyTreeArgs),
    Completions(CompletionsArgs),
}

#[derive(Debug, Clone, Copy, PartialEq, Eq, Structural)]
pub enum Shell {
    Bash,
    Zsh,
    Fish,
}

pub struct CompletionsArgs {
    pub shell: Shell,
}

pub enum AuthCommand {
    Login(AuthLoginArgs),
    Status,
    Logout,
}

pub struct AuthLoginArgs {
    pub domain: Option<String>,
    pub email: Option<String>,
    pub token: Option<String>,
    pub api_path: Option<String>,
    pub api_v2_path: Option<String>,
    pub bearer: Option<String>,
}

pub enum SpaceCommand {
    List(SpaceListArgs),
    Get(SpaceGetArgs),
    Pages(SpacePagesArgs),
    Create(SpaceCreateArgs),
    Delete(SpaceDeleteArgs),
}

pub struct SpaceListArgs {
    pub keys: Option<String>,
    pub space_type: Option<String>,
    pub status: Option<String>,
    pub labels: Option<String>,
    pub output: OutputFormat,
    pub all: bool,
    pub limit: usize,
}

pub struct SpaceGetArgs {
    pub space: String,
    pub output: OutputFormat,
}

pub struct SpacePagesArgs {
    pub space: String,
    pub depth: String,
    pub tree: bool,
    pub status: Option<String>,
    pub title: Option<String>,
    pub output: OutputFormat,
    pub all: bool,
    pub limit: usize,
}

pub struct SpaceCreateArgs {
    pub key: String,
    pub name: String,
    pub description: Option<String>,
    pub compact_json: bool,
    pub output: OutputFormat,
}

pub struct SpaceDeleteArgs {
    pub space: String,
    pub yes: bool,
    pub output: Option<OutputFormat>,
}

pub enum PageCommand {
    List(PageListArgs),
    Get(PageGetArgs),
    Body(PageBodyArgs),
    Edit(PageEditArgs),
    Create(PageCreateArgs),
    Update(PageUpdateArgs),
    Delete(PageDeleteArgs),
    Children(PageChildrenArgs),
    History(PageHistoryArgs),
    Open(PageOpenArgs),
}

pub struct PageListArgs {
    pub space: Option<String>,
    pub status: Option<String>,
    pub title: Option<String>,
    pub output: OutputFormat,
    pub all: bool,
    pub limit: usize,
}

pub struct PageGetArgs {
    pub page: String,
    pub body_format: String,
    pub version: Option<i64>,
    pub keep_empty_list_items: bool,
    pub show_body: bool,
    pub output: OutputFormat,
}

pub struct PageBodyArgs {
    pub page: String,
    pub keep_empty_list_items: bool,
    pub format: String,
    pub output: OutputFormat,
}

pub struct PageEditArgs {
    pub page: String,
    pub format: String,
    pub diff: bool,
    pub yes: bool,
}

pub struct PageCreateArgs {
    pub space: String,
    pub title: Option<String>,
    pub parent: Option<String>,
    pub status: Option<String>,
    pub body_file: Option<String>,
    pub body: Option<String>,
    pub body_format: String,
    pub output: OutputFormat,
}

pub struct PageUpdateArgs {
    pub page: String,
    pub title: Option<String>,
    pub parent: Option<String>,
    pub status: Option<String>,
    pub body_file: Option<String>,
    pub body: Option<String>,
    pub body_format: String,
    pub message: Option<String>,
    pub output: OutputFormat,
}

pub struct PageDeleteArgs {
    pub page: String,
    pub purge: bool,
    pub force: bool,
    pub yes: bool,
    pub output: Option<OutputFormat>,
}

pub struct PageChildrenArgs {
    pub page: String,
    pub recursive: bool,
    pub output: OutputFormat,
    pub all: bool,
    pub limit: usize,
}

pub struct PageHistoryArgs {
    pub page: String,
    pub output: OutputFormat,
    pub limit: usize,
}

pub struct PageOpenArgs {
    pub page: String,
}

pub struct SearchCommand {
    pub query: String,
    pub space: Option<String>,
    pub output: OutputFormat,
    pub all: bool,
    pub limit: usize,
}

pub enum AttachmentCommand {
    List(AttachmentListArgs),
    Get(AttachmentGetArgs),
    Download(AttachmentDownloadArgs),
    Upload(AttachmentUploadArgs),
    Delete(AttachmentDeleteArgs),
}

pub struct AttachmentListArgs {
    pub page: Option<String>,
    pub output: OutputFormat,
    pub all: bool,
    pub limit: usize,
}

pub struct AttachmentGetArgs {
    pub attachment: String,
    pub output: OutputFormat,
}

pub struct AttachmentDownloadArgs {
    pub attachment: String,
    pub dest: Option<String>,
}

pub struct AttachmentUploadArgs {
    pub page: String,
    pub files: Vec<String>,
    pub comment: Option<String>,
    pub output: OutputFormat,
    pub concurrency: usize,
}

pub struct AttachmentDeleteArgs {
    pub attachment: String,
    pub purge: bool,
    pub yes: bool,
    pub output: Option<OutputFormat>,
}

pub enum LabelCommand {
    List(LabelListArgs),
    Add(LabelAddArgs),
    Remove(LabelRemoveArgs),
    Pages(LabelPagesArgs),
}

pub struct LabelListArgs {
    pub page: Option<String>,
    pub output: OutputFormat,
    pub all: bool,
    pub limit: usize,
}

pub struct LabelAddArgs {
    pub page: String,
    pub labels: Vec<String>,
}

pub struct LabelRemoveArgs {
    pub page: String,
    pub labels: Vec<String>,
}

pub struct LabelPagesArgs {
    pub label: String,
    pub output: OutputFormat,
    pub all: bool,
    pub limit: usize,
}

pub enum CommentCommand {
    List(CommentListArgs),
    Add(CommentAddArgs),
    Delete(CommentDeleteArgs),
}

pub struct CommentListArgs {
    pub page: String,
    pub location: Option<String>,
    pub output: OutputFormat,
    pub all: bool,
    pub limit: usize,
}

pub struct CommentAddArgs {
    pub page: String,
    pub message: Option<String>,
    pub parent: Option<String>,
    pub location: Option<String>,
    pub inline_properties: Option<String>,
    pub body_file: Option<String>,
    pub body: Option<String>,
    pub body_format: String,
    pub output: OutputFormat,
}

pub struct CommentDeleteArgs {
    pub comment: String,
    pub yes: bool,
    pub output: Option<OutputFormat>,
}

pub struct ExportArgs {
    pub page: String,
    pub dest: String,
    pub format: String,
    pub pattern: Option<String>,
    pub skip_attachments: bool,
    pub concurrency: usize,
    pub output: OutputFormat,
}

pub struct CopyTreeArgs {
    pub source: String,
    pub target_parent: String,
    pub new_title: Option<String>,
    pub copy_suffix: String,
    pub exclude: Option<String>,
    pub max_depth: usize,
    pub delay_ms: u64,
    pub concurrency: usize,
    pub output: OutputFormat,
}

/// A space key as the service accepts it: 2 to 32 characters, an ASCII
/// capital first, capitals and digits after.
pub open spec fn spec_valid_space_key(t: Seq<char>) -> bool {
    &&& 2 <= t.len() <= 32
    &&& 'A' <= t[0] && t[0] <= 'Z'
    &&& forall|i: int|
        1 <= i < t.len() ==> (('A' <= #[trigger] t[i] && t[i] <= 'Z') || ('0' <= t[i] && t[i]
            <= '9'))
}

pub open spec fn spec_space_key_error(t: Seq<char>) -> Seq<char> {
    if t.len() == 0 {
        "space key cannot be empty"@
    } else if t.len() < 2 || t.len() > 32 {
        "space key must be 2-32 characters"@
    } else if !('A' <= t[0] && t[0] <= 'Z') {
        "space key must start with an uppercase letter (A-Z)"@
    } else {
        "space key must contain only A-Z and 0-9"@
    }
}

/// A space key checked before any request is made: the trimmed key, or the
/// first reason it is not acceptable.
#[verifier::loop_isolation(false)]
pub fn parse_space_key(s: &str) -> (r: Result<String, String>)
    ensures
        match r {
            Ok(k) => k@ == crate::strutil::trimmed(s@) && spec_valid_space_key(
                crate::strutil::trimmed(s@),
            ),
            Err(e) => !spec_valid_space_key(crate::strutil::trimmed(s@)) && e@
                == spec_space_key_error(crate::strutil::trimmed(s@)),
        },
{
    let sv = crate::strutil::str_chars(s);
    let t = crate::strutil::chars_trim(&sv);
    if t.len() == 0 {
        return Err(String::from_str("space key cannot be empty"));
    }
    if t.len() < 2 || t.len() > 32 {
        return Err(String::from_str("space key must be 2-32 characters"));
    }
    let first = t[0];
    if !('A' <= first && first <= 'Z') {
        return Err(String::from_str("space key must start with an uppercase letter (A-Z)"));
    }
    let mut i: usize = 1;
    while i < t.len()
        invariant
            1 <= i <= t@.len(),
            forall|j: int|
                1 <= j < i ==> (('A' <= #[trigger] t@[j] && t@[j] <= 'Z') || ('0' <= t@[j]
                    && t@[j] <= '9')),
        decreases t@.len() - i,
    {
        let c = t[i];
        if !(('A' <= c && c <= 'Z') || ('0' <= c && c <= '9')) {
            return Err(String::from_str("space key must contain only A-Z and 0-9"));
        }
        i += 1;
    }
    Ok(crate::strutil::chars_string(&t))
}

pub open spec fn bad_limit_text() -> Seq<char> {
    "limit must be a positive integer"@
}

pub open spec fn zero_limit_text() -> Seq<char> {
    "limit must be at least 1"@
}

/// A `--limit` value checked at parse time: a positive integer, or the
/// reason it is not one.
pub fn parse_positive_limit(s: &str) -> (r: Result<u64, String>)
    ensures
        match r {
            Ok(v) => crate::strutil::parse_u64_of(crate::strutil::trimmed(s@)) == Some(v) && v
                >= 1,
            Err(e) => (match crate::strutil::parse_u64_of(crate::strutil::trimmed(s@)) {
                Some(v) => v == 0 && e@ == zero_limit_text(),
                None => e@ == bad_limit_text(),
            }),
        },
{
    let sv = crate::strutil::str_chars(s);
    let t = crate::strutil::chars_trim(&sv);
    match crate::strutil::parse_u64(&t) {
        Some(v) => {
            if v == 0 {
                Err(String::from_str("limit must be at least 1"))
            } else {
                Ok(v)
            }
        },
        None => Err(String::from_str("limit must be a positive integer")),
    }
}

} // verus!
