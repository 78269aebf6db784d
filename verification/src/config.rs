//! Local configuration.

use vstd::multiset::Multiset;
use vstd::prelude::*;

use crate::error::Error;
use crate::import::job::ImportOptions;
use crate::path;
use crate::text;

verus! {

/// The configuration of one machine.
#[derive(Debug, Clone, PartialEq, Eq)]
pub struct Config {
    pub bucket: BucketConfig,
    pub local: LocalConfig,
    pub export: ExportConfig,
    pub mixxx: MixxxConfig,
    pub import: ImportConfig,
    pub library: LibraryConfig,
    /// Named profiles, in the order of their names.
    pub profiles: Vec<NamedProfile>,
}

/// Where the library stands on this machine: the anchor of every slug.
#[derive(Debug, Clone, PartialEq, Eq)]
pub struct LibraryConfig {
    pub root: Option<String>,
}

impl Default for LibraryConfig {
    fn default() -> (r: LibraryConfig)
        ensures
            r.root is None,
    {
        LibraryConfig { root: None }
    }
}

/// How imports behave.
#[derive(Debug, Clone, Copy, PartialEq, Eq, Structural)]
pub struct ImportConfig {
    /// Take dotfiles and hidden folders as well.
    pub include_dotfiles: bool,
    /// Capture cover art that stands next to imported audio.
    pub capture_artwork: bool,
}

impl Default for ImportConfig {
    fn default() -> (r: ImportConfig)
        ensures
            !r.include_dotfiles,
            r.capture_artwork,
    {
        ImportConfig { include_dotfiles: false, capture_artwork: default_true() }
    }
}

/// Where the archive lives.
#[derive(Debug, Clone, PartialEq, Eq)]
pub struct BucketConfig {
    pub name: String,
    pub region: String,
    pub endpoint: Option<String>,
    pub prefix: String,
    pub music_prefix: String,
}

impl BucketConfig {
    /// A bucket with the default prefixes where none is given.
    pub fn with_defaults(
        name: String,
        region: String,
        endpoint: Option<String>,
        prefix: Option<String>,
        music_prefix: Option<String>,
    ) -> (r: BucketConfig)
        ensures
            r.name == name,
            r.region == region,
            r.endpoint == endpoint,
            r.prefix@ == match prefix {
                Some(p) => p@,
                None => ".trove"@,
            },
            r.music_prefix@ == match music_prefix {
                Some(p) => p@,
                None => "music"@,
            },
    {
        BucketConfig {
            name,
            region,
            endpoint,
            prefix: match prefix {
                Some(p) => p,
                None => default_prefix(),
            },
            music_prefix: match music_prefix {
                Some(p) => p,
                None => default_music_prefix(),
            },
        }
    }
}

/// Folders of this machine.
#[derive(Debug, Clone, PartialEq, Eq)]
pub struct LocalConfig {
    pub music_folder: Option<String>,
}

impl Default for LocalConfig {
    fn default() -> (r: LocalConfig)
        ensures
            r.music_folder is None,
    {
        LocalConfig { music_folder: None }
    }
}

/// How volumes are laid out.
#[derive(Debug, Clone, Copy, PartialEq, Eq, Structural)]
pub struct ExportConfig {
    pub layout: ExportLayout,
    pub playlist_format: PlaylistFormat,
}

impl Default for ExportConfig {
    fn default() -> (r: ExportConfig)
        ensures
            r.layout is ArtistAlbum,
            r.playlist_format is M3u8,
    {
        ExportConfig { layout: default_layout(), playlist_format: default_playlist_format() }
    }
}

/// The folders of a volume.
#[derive(Debug, Clone, Copy, PartialEq, Eq, Structural)]
pub enum ExportLayout {
    /// `Music/Artist/Album/Track.flac`
    ArtistAlbum,
    /// `Music/Track.flac`
    Flat,
}

/// The format of playlist files.
#[derive(Debug, Clone, Copy, PartialEq, Eq, Structural)]
pub enum PlaylistFormat {
    M3u8,
    M3u,
}

/// Settings for Mixxx.
#[derive(Debug, Clone, Copy, PartialEq, Eq, Structural)]
pub struct MixxxConfig {
    pub relative_paths: bool,
}

impl Default for MixxxConfig {
    fn default() -> (r: MixxxConfig)
        ensures
            r.relative_paths,
    {
        MixxxConfig { relative_paths: default_true() }
    }
}

/// Another bucket.
#[derive(Debug, Clone, PartialEq, Eq)]
pub struct ProfileConfig {
    pub bucket: String,
    pub region: String,
    pub endpoint: Option<String>,
}

/// A profile and its name.
#[derive(Debug, Clone, PartialEq, Eq)]
pub struct NamedProfile {
    pub name: String,
    pub profile: ProfileConfig,
}

/// The default prefix of everything but the music.
pub fn default_prefix() -> (r: String)
    ensures
        r@ == ".trove"@,
{
    ".trove".to_owned()
}

/// The default prefix of the music.
pub fn default_music_prefix() -> (r: String)
    ensures
        r@ == "music"@,
{
    "music".to_owned()
}

/// The default layout.
pub fn default_layout() -> (r: ExportLayout)
    ensures
        r is ArtistAlbum,
{
    ExportLayout::ArtistAlbum
}

/// The default playlist format.
pub fn default_playlist_format() -> (r: PlaylistFormat)
    ensures
        r is M3u8,
{
    PlaylistFormat::M3u8
}

/// The default of settings that are on unless switched off.
pub fn default_true() -> (r: bool)
    ensures
        r,
{
    true
}

/// The configuration that is used until there is a file: a bucket on this
/// machine.
pub const LOCAL_DEFAULT_TOML: &'static str = "[bucket]\nname = \"local\"\nregion = \"local\"\n";

impl Config {
    /// The configuration that [`LOCAL_DEFAULT_TOML`] stands for.
    pub fn local_default() -> (r: Config)
        ensures
            r.is_local_default(),
    {
        Config {
            bucket: BucketConfig::with_defaults(
                "local".to_owned(),
                "local".to_owned(),
                None,
                None,
                None,
            ),
            local: LocalConfig::default(),
            export: ExportConfig::default(),
            mixxx: MixxxConfig::default(),
            import: ImportConfig::default(),
            library: LibraryConfig::default(),
            profiles: Vec::new(),
        }
    }

    /// Whether every setting is the default, and the bucket is the local one.
    pub open spec fn is_local_default(self) -> bool {
        &&& self.bucket.name@ == "local"@
        &&& self.bucket.region@ == "local"@
        &&& self.bucket.endpoint is None
        &&& self.bucket.prefix@ == ".trove"@
        &&& self.bucket.music_prefix@ == "music"@
        &&& self.local.music_folder is None
        &&& self.export.layout is ArtistAlbum
        &&& self.export.playlist_format is M3u8
        &&& self.mixxx.relative_paths
        &&& !self.import.include_dotfiles
        &&& self.import.capture_artwork
        &&& self.library.root is None
        &&& self.profiles@.len() == 0
    }
}

/// The configuration to use: the one of the file, or the local default if it
/// cannot be loaded.
pub fn load_config(loaded: Result<Config, Error>) -> (r: Config)
    ensures
        match loaded {
            Ok(c) => r == c,
            Err(_) => r.is_local_default(),
        },
{
    match loaded {
        Ok(c) => c,
        Err(_) => Config::local_default(),
    }
}

/// Without a configuration, everything stays on this machine: the bucket is the local
/// one, tracks go into folders by artist and album, playlists are written in the
/// extended format with relative paths, dotfiles are left out, artwork is captured, and
/// no library root is declared.
pub proof fn law_local_default(c: Config)
    requires
        c.is_local_default(),
    ensures
        c.bucket.name@ == "local"@ && c.bucket.region@ == "local"@,
        c.bucket.prefix@ == ".trove"@ && c.bucket.music_prefix@ == "music"@,
        c.export.layout is ArtistAlbum && c.export.playlist_format is M3u8,
        c.mixxx.relative_paths,
        !c.import.include_dotfiles && c.import.capture_artwork,
        c.library.root is None,
{
}

/// Where the configuration and the caches stand: the folder that is named
/// explicitly, else `.trove` in the user's home. There is none without either.
pub open spec fn home_of(explicit: Option<Seq<char>>, user_home: Option<Seq<char>>) -> Option<
    Seq<char>,
> {
    match (explicit, user_home) {
        (Some(dir), _) => Some(dir),
        (None, Some(home)) => Some(path::join(home, ".trove"@)),
        (None, None) => None,
    }
}

/// The home is the one that is named explicitly, else the folder `.trove` of the user's
/// home; without either there is none.
pub proof fn law_explicit_home_counts(explicit: Seq<char>, user_home: Seq<char>)
    requires
        user_home.len() > 0,
        user_home.last() != '/',
    ensures
        home_of(Some(explicit), Some(user_home)) == Some(explicit),
        home_of(Some(explicit), None) == Some(explicit),
        home_of(None, Some(user_home)) == Some(user_home + "/.trove"@),
        home_of(None, None) is None,
{
    reveal_strlit(".trove");
    reveal_strlit("/.trove");
    path::law_join_puts_a_separator_between(user_home, ".trove"@);
    assert(seq!['/'] + ".trove"@ =~= "/.trove"@);
    assert(user_home + seq!['/'] + ".trove"@ =~= user_home + "/.trove"@);
}

/// Where the configuration and the caches stand.
pub fn trove_home(explicit: &Option<String>, user_home: &Option<String>) -> (r: Result<
    String,
    Error,
>)
    ensures
        match home_of(text::opt_view(*explicit), text::opt_view(*user_home)) {
            Some(dir) => r matches Ok(d) && d@ == dir,
            None => r matches Err(Error::Config(m)) && m@
                == "could not determine home directory"@,
        },
{
    match (explicit, user_home) {
        (Some(dir), _) => Ok(dir.clone()),
        (None, Some(home)) => Ok(path::join_path(home.as_str(), ".trove")),
        (None, None) => Err(Error::config("could not determine home directory")),
    }
}

/// The configuration file in a home folder.
pub fn default_config_path(home: &str) -> (r: String)
    ensures
        r@ == path::join(home@, "config.toml"@),
{
    path::join_path(home, "config.toml")
}

/// The folder that simulates the bucket: the one that is named explicitly, else
/// one in the home folder.
pub fn bucket_dir(explicit: &Option<String>, home: &str) -> (r: String)
    ensures
        r@ == match *explicit {
            Some(dir) => dir@,
            None => path::join(home@, "bucket-sim"@),
        },
{
    match explicit {
        Some(dir) => dir.clone(),
        None => path::join_path(home, "bucket-sim"),
    }
}

/// Which store holds the bucket.
#[derive(Debug, Clone, Copy, PartialEq, Eq, Structural)]
pub enum StoreKind {
    /// A folder of this machine.
    Local,
    /// A service. One behind an endpoint of its own is addressed by paths, and has
    /// to show that it honours conditional writes.
    Remote { own_endpoint: bool },
}

/// Which store holds the bucket: a folder if the region is `local`, a service
/// otherwise.
pub fn store_kind(bucket: &BucketConfig) -> (r: StoreKind)
    ensures
        r == (if bucket.region@ == "local"@ {
            StoreKind::Local
        } else {
            StoreKind::Remote { own_endpoint: bucket.endpoint is Some }
        }),
{
    if text::same(bucket.region.as_str(), "local") {
        StoreKind::Local
    } else {
        StoreKind::Remote {
            own_endpoint: match &bucket.endpoint {
                Some(_) => true,
                None => false,
            },
        }
    }
}

/// The options of an import: what the configuration says, unless the command
/// says otherwise.
pub fn merge_import_options(
    config: &ImportConfig,
    include_dotfiles: bool,
    no_artwork: bool,
    artwork_paths: Vec<String>,
) -> (r: ImportOptions)
    ensures
        r.include_dotfiles == (config.include_dotfiles || include_dotfiles),
        r.capture_artwork == (config.capture_artwork && !no_artwork),
        r.artwork_paths == artwork_paths,
{
    ImportOptions {
        include_dotfiles: config.include_dotfiles || include_dotfiles,
        capture_artwork: config.capture_artwork && !no_artwork,
        artwork_paths,
    }
}

// ---------------------------------------------------------------------------
// Declaring the library root
// ---------------------------------------------------------------------------

/// A TOML document that can be changed in place.
#[verifier::external_type_specification]
#[verifier::external_body]
pub struct ExDocumentMut(toml_edit::DocumentMut);

/// What stands under a key of a TOML document.
pub enum Setting {
    /// A table, inline or not, whatever it holds.
    Table,
    /// A list of tables with headers of their own.
    Tables,
    /// A text, and how the document writes it.
    Text { text: Seq<char>, written: Seq<char> },
    /// A number, a switch, a date or a list, as the document writes it.
    Other(Seq<char>),
}

/// Everything that a document holds, by the keys that lead there from the top. A
/// table in a list of tables counts as a table under its number.
pub uninterp spec fn document_content(d: toml_edit::DocumentMut) -> Map<Seq<Seq<char>>, Setting>;

/// The comments of a document, each from its `#` to the end of its line.
pub uninterp spec fn document_comments(d: toml_edit::DocumentMut) -> Multiset<Seq<char>>;

/// Whether a document is laid out as one that was read: what it is written as can
/// then be read again, and holds all of it.
pub uninterp spec fn document_is_readable(d: toml_edit::DocumentMut) -> bool;

/// What a document is written as.
pub uninterp spec fn document_text(d: toml_edit::DocumentMut) -> Seq<char>;

/// Everything that TOML text holds, as in [`document_content`]; or, for other
/// text, what is wrong with it.
pub uninterp spec fn toml_content(text: Seq<char>) -> Result<
    Map<Seq<Seq<char>>, Setting>,
    Seq<char>,
>;

/// The comments of TOML text, as in [`document_comments`].
pub uninterp spec fn toml_comments(text: Seq<char>) -> Multiset<Seq<char>>;

/// How a text is written as a TOML string.
pub uninterp spec fn quoted(s: Seq<char>) -> Seq<char>;

/// A text that was put into a document.
pub open spec fn quoted_text(s: Seq<char>) -> Setting {
    Setting::Text { text: s, written: quoted(s) }
}

/// Whether the same character stands in a text this often in a row.
pub open spec fn has_run(s: Seq<char>, c: char, n: nat) -> bool {
    exists|i: int| #[trigger] is_run(s, c, n, i)
}

/// Whether the same character stands this often in a row from a place on.
pub open spec fn is_run(s: Seq<char>, c: char, n: nat, i: int) -> bool {
    0 <= i && i + n <= s.len() && forall|j: int| i <= j < i + n ==> s[j] == c
}

/// Whether a text can be written as a TOML string: the writer counts quotes in
/// a row, and does not count to 256.
pub open spec fn can_be_quoted(s: Seq<char>) -> bool {
    !has_run(s, '\'', 256) && !has_run(s, '"', 256)
}

/// The keys that lead to a top key.
pub open spec fn top(name: Seq<char>) -> Seq<Seq<char>> {
    seq![name]
}

/// The keys that lead to a key of a top table.
pub open spec fn within(name: Seq<char>, key: Seq<char>) -> Seq<Seq<char>> {
    seq![name, key]
}

/// Whether a table stands where the keys lead.
pub open spec fn has_table(c: Map<Seq<Seq<char>>, Setting>, at: Seq<Seq<char>>) -> bool {
    c.contains_key(at) && c[at] is Table
}

/// What is left if what stands where the keys lead is taken out, with all that is
/// below it.
pub open spec fn without(c: Map<Seq<Seq<char>>, Setting>, at: Seq<Seq<char>>) -> Map<
    Seq<Seq<char>>,
    Setting,
> {
    c.restrict(Set::new(|k: Seq<Seq<char>>| !at.is_prefix_of(k)))
}

/// Whether nothing that could hold a comment stands where the keys lead.
pub open spec fn holds_no_comment(c: Map<Seq<Seq<char>>, Setting>, at: Seq<Seq<char>>) -> bool {
    c.contains_key(at) ==> match c[at] {
        Setting::Text { .. } => true,
        Setting::Other(written) => !written.contains('#'),
        _ => false,
    }
}

/// Whether text is TOML that holds this.
pub open spec fn reads_as(text: Seq<char>, content: Map<Seq<Seq<char>>, Setting>) -> bool {
    toml_content(text) matches Ok(c) && c == content
}

/// Reads TOML text.
///
/// Trusted: `str::parse` to a `toml_edit::DocumentMut`. Whether there is a
/// document, what it holds, its comments, and the text of the error depend on the
/// text alone. A document that was read keeps all of its text, so it can be read
/// again.
#[verifier::external_body]
fn read_document(text: &str) -> (r: Result<toml_edit::DocumentMut, String>)
    ensures
        match r {
            Ok(d) => reads_as(text@, document_content(d)) && document_comments(d) == toml_comments(
                text@,
            ) && document_is_readable(d),
            Err(why) => toml_content(text@) matches Err(m) && m == why@,
        },
{
    match text.parse::<toml_edit::DocumentMut>() {
        Ok(d) => Ok(d),
        Err(e) => Err(e.to_string()),
    }
}

/// Whether a document has a top key.
///
/// Trusted: `toml_edit::Table::contains_key` on the root of the document.
#[verifier::external_body]
fn document_has_key(d: &toml_edit::DocumentMut, name: &str) -> (r: bool)
    ensures
        r == document_content(*d).contains_key(top(name@)),
{
    d.contains_key(name)
}

/// Whether a document has a table under a top key, inline or not.
///
/// Trusted: `toml_edit::Table::get` on the root of the document, and
/// `toml_edit::Item::is_table_like`.
#[verifier::external_body]
fn document_has_table(d: &toml_edit::DocumentMut, name: &str) -> (r: bool)
    ensures
        r == has_table(document_content(*d), top(name@)),
{
    d.get(name).is_some_and(|v| v.is_table_like())
}

/// Puts an empty table with a header of its own under a top key that is not there.
///
/// Trusted: assigning `toml_edit::table()` through `IndexMut` of
/// `toml_edit::DocumentMut`. The table is added, and nothing else is touched.
#[verifier::external_body]
fn put_table(d: &mut toml_edit::DocumentMut, name: &str)
    requires
        !document_content(*old(d)).contains_key(top(name@)),
    ensures
        document_content(*final(d)) == document_content(*old(d)).insert(
            top(name@),
            Setting::Table,
        ),
        document_comments(*final(d)) == document_comments(*old(d)),
        document_is_readable(*old(d)) ==> document_is_readable(*final(d)),
{
    d[name] = toml_edit::table();
}

/// Puts an empty inline table under a top key, in the place of what is there.
///
/// Trusted: assigning a `toml_edit::InlineTable` through `IndexMut` of
/// `toml_edit::DocumentMut`. It takes over the `toml_edit::Decor` of the value that
/// it replaces: what stands around that value on its line. The key keeps what
/// stands in front of it. So comments go only with what was replaced.
#[verifier::external_body]
fn put_inline_table(d: &mut toml_edit::DocumentMut, name: &str)
    requires
        document_content(*old(d)).contains_key(top(name@)),
    ensures
        document_content(*final(d)) == without(document_content(*old(d)), top(name@)).insert(
            top(name@),
            Setting::Table,
        ),
        document_comments(*final(d)).subset_of(document_comments(*old(d))),
        holds_no_comment(document_content(*old(d)), top(name@)) ==> document_comments(*final(d))
            == document_comments(*old(d)),
        document_is_readable(*old(d)) ==> document_is_readable(*final(d)),
{
    let item = &mut d[name];
    let mut new = toml_edit::Value::InlineTable(toml_edit::InlineTable::new());
    if let Some(old) = item.as_value() {
        *new.decor_mut() = old.decor().clone();
    }
    *item = toml_edit::Item::Value(new);
}

/// Puts a text under a key of a top table, in the place of what is there.
///
/// Trusted: assigning a `toml_edit::Value` through `IndexMut` of
/// `toml_edit::DocumentMut` and of `toml_edit::Item`, which finds the table, inline
/// or not, or panics. The text is written as a TOML string that stands for it; how
/// depends on the text alone, and the writer counts runs of quotes in a byte. It takes
/// over the `toml_edit::Decor` of the value that it replaces, and the key keeps what
/// stands in front of it, so comments go only with what was replaced. Nothing else is
/// touched.
#[verifier::external_body]
fn put_text(d: &mut toml_edit::DocumentMut, name: &str, key: &str, value: &str)
    requires
        has_table(document_content(*old(d)), top(name@)),
        can_be_quoted(value@),
    ensures
        document_content(*final(d)) == without(
            document_content(*old(d)),
            within(name@, key@),
        ).insert(
            within(name@, key@),
            Setting::Text { text: value@, written: quoted(value@) },
        ),
        document_comments(*final(d)).subset_of(document_comments(*old(d))),
        holds_no_comment(document_content(*old(d)), within(name@, key@)) ==> document_comments(
            *final(d),
        ) == document_comments(*old(d)),
        document_is_readable(*old(d)) ==> document_is_readable(*final(d)),
{
    let item = &mut d[name][key];
    let mut new = toml_edit::Value::from(value);
    if let Some(old) = item.as_value() {
        *new.decor_mut() = old.decor().clone();
    }
    *item = toml_edit::Item::Value(new);
}

/// Writes a document.
///
/// Trusted: `ToString` of `toml_edit::DocumentMut`. The text depends on the
/// document alone. If the document is laid out as one that was read, the text holds
/// what it holds, and has its comments.
#[verifier::external_body]
fn write_document(d: &toml_edit::DocumentMut) -> (r: String)
    ensures
        r@ == document_text(*d),
        document_is_readable(*d) ==> reads_as(r@, document_content(*d)),
        document_is_readable(*d) ==> toml_comments(r@) == document_comments(*d),
{
    d.to_string()
}

/// The content of a configuration in which `library` is a table: an empty one, if
/// something else or nothing stood there.
pub open spec fn with_library(c: Map<Seq<Seq<char>>, Setting>) -> Map<Seq<Seq<char>>, Setting> {
    if has_table(c, top("library"@)) {
        c
    } else if !c.contains_key(top("library"@)) {
        c.insert(top("library"@), Setting::Table)
    } else {
        without(c, top("library"@)).insert(top("library"@), Setting::Table)
    }
}

/// The content of a configuration after the root was declared: the root stands in
/// the table `library`, in the place of one declared before, and everything else is
/// as it was.
pub open spec fn with_root(c: Map<Seq<Seq<char>>, Setting>, root: Seq<char>) -> Map<
    Seq<Seq<char>>,
    Setting,
> {
    without(with_library(c), within("library"@, "root"@)).insert(
        within("library"@, "root"@),
        quoted_text(root),
    )
}

/// Whether what declaring a root replaces holds no comment: there is a table
/// `library` or nothing that could hold one, and no table or list with comments in
/// the place of the root.
pub open spec fn replaces_no_comment(c: Map<Seq<Seq<char>>, Setting>) -> bool {
    &&& has_table(c, top("library"@)) || holds_no_comment(c, top("library"@))
    &&& holds_no_comment(with_library(c), within("library"@, "root"@))
}

/// The text that is changed: that of the configuration file, or the local
/// default if there is none.
pub open spec fn text_or_default(text: Option<Seq<char>>) -> Seq<char> {
    match text {
        Some(t) => t,
        None => LOCAL_DEFAULT_TOML@,
    }
}

/// Declares the library root in the text of a configuration file, and touches
/// nothing else: every other setting of whatever kind, the other settings of
/// `library` among them, and every comment stay. Only comments inside something
/// that the root replaces go with it. Layout is no part of this contract: line
/// breaks are written as one character, and keys with a common prefix side by side.
pub fn set_library_root(text: &Option<String>, path: &str, root: &str) -> (r: Result<String, Error>)
    requires
        can_be_quoted(root@),
    ensures
        match toml_content(text_or_default(text::opt_view(*text))) {
            Err(why) => r matches Err(Error::Config(m)) && m@ == "could not parse "@ + path@ + ": "@
                + why,
            Ok(c) => {
                let comments = toml_comments(text_or_default(text::opt_view(*text)));
                &&& r matches Ok(t)
                &&& reads_as(t@, with_root(c, root@))
                &&& toml_comments(t@).subset_of(comments)
                &&& replaces_no_comment(c) ==> toml_comments(t@) == comments
            },
        },
{
    let before: &str = match text {
        Some(t) => t.as_str(),
        None => LOCAL_DEFAULT_TOML,
    };
    match read_document(before) {
        Ok(mut d) => {
            if !document_has_key(&d, "library") {
                put_table(&mut d, "library");
            } else if !document_has_table(&d, "library") {
                put_inline_table(&mut d, "library");
            }
            put_text(&mut d, "library", "root", root);
            Ok(write_document(&d))
        },
        Err(why) => Err(Error::Config(text::cat4("could not parse ", path, ": ", why.as_str()))),
    }
}

/// Declaring a root and then another one leaves what declaring the other one
/// alone leaves: the last root counts.
pub proof fn law_last_root_counts(
    c: Map<Seq<Seq<char>>, Setting>,
    first: Seq<char>,
    last: Seq<char>,
)
    ensures
        with_root(with_root(c, first), last) == with_root(c, last),
        with_root(c, last)[within("library"@, "root"@)] == quoted_text(last),
        replaces_no_comment(with_root(c, first)),
{
    let at = within("library"@, "root"@);
    assert(at.is_prefix_of(at));
    assert(!at.is_prefix_of(top("library"@)));
    let once = with_root(c, first);
    assert(has_table(once, top("library"@)));
    assert(without(once, at) =~= without(with_library(c), at));
}

/// Declaring a root touches nothing else: whatever stood in the configuration,
/// but for the root itself and a `library` that was no table, stands there still,
/// and nothing is added but the root and the table that it stands in.
pub proof fn law_root_touches_nothing_else(
    c: Map<Seq<Seq<char>>, Setting>,
    root: Seq<char>,
    at: Seq<Seq<char>>,
)
    requires
        !within("library"@, "root"@).is_prefix_of(at),
        has_table(c, top("library"@)) || !top("library"@).is_prefix_of(at),
    ensures
        with_root(c, root).contains_key(at) == c.contains_key(at),
        c.contains_key(at) ==> with_root(c, root)[at] == c[at],
{
    assert(within("library"@, "root"@).is_prefix_of(within("library"@, "root"@)));
    assert(top("library"@).is_prefix_of(top("library"@)));
}

} // verus!
