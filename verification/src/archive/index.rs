//! Object keys, and the line format of the index.

use vstd::prelude::*;

use crate::selection;
use crate::store::stub;
use crate::text;

verus! {

/// The schema version that this library writes and understands.
pub const CURRENT_SCHEMA_VERSION: u32 = 1;

/// Object key of the SQLite index.
pub const ARCHIVE_INDEX_SQLITE: &'static str = "archive-index.sqlite";

/// Object key of the generation marker.
pub const SCHEMA_VERSION_JSON: &'static str = "schema-version.json";

/// Object key of the playlists file.
pub const PLAYLISTS_JSONL: &'static str = "playlists.jsonl";

/// Object key of the artwork manifest.
pub const ARTWORK_MANIFEST_JSONL: &'static str = "manifests/artwork.jsonl";

/// Resolves object keys under a configured bucket prefix.
#[derive(Debug, Clone)]
pub struct BucketPaths {
    prefix: String,
    music_prefix: String,
}

/// A key under a prefix.
pub open spec fn under(prefix: Seq<char>, name: Seq<char>) -> Seq<char> {
    prefix + "/"@ + name
}

impl BucketPaths {
    /// The prefix of everything but the music and the artwork.
    pub closed spec fn prefix_text(self) -> Seq<char> {
        self.prefix@
    }

    /// The prefix of the music.
    pub closed spec fn music_prefix_text(self) -> Seq<char> {
        self.music_prefix@
    }

    /// Keys under the given prefixes, trailing slashes left out.
    pub fn new(prefix: &str, music_prefix: &str) -> (r: BucketPaths)
        ensures
            r.prefix_text() == text::trim_end(prefix@, '/'),
            r.music_prefix_text() == text::trim_end(music_prefix@, '/'),
    {
        BucketPaths {
            prefix: text::trim_end_text(prefix, '/'),
            music_prefix: text::trim_end_text(music_prefix, '/'),
        }
    }

    fn join(&self, name: &str) -> (r: String)
        ensures
            r@ == under(self.prefix_text(), name@),
    {
        text::cat3(self.prefix.as_str(), "/", name)
    }

    /// The key of the index of one generation. Never overwritten once written.
    pub open spec fn index_key(self, generation: nat) -> Seq<char> {
        under(self.prefix_text(), "archive-index/"@ + text::decimal(generation) + ".jsonl"@)
    }

    /// The key of the generation marker.
    pub open spec fn marker_key(self) -> Seq<char> {
        under(self.prefix_text(), "schema-version.json"@)
    }

    /// The prefix of the keys of all plans.
    pub open spec fn plans_prefix(self) -> Seq<char> {
        under(self.prefix_text(), "backfill-plans/"@)
    }

    /// The key of a plan.
    pub open spec fn plan_key(self, plan_id: Seq<char>) -> Seq<char> {
        under(self.prefix_text(), "backfill-plans/"@ + plan_id + ".json"@)
    }

    /// The prefix of the keys of the events of a plan.
    pub open spec fn events_prefix(self, plan_id: Seq<char>) -> Seq<char> {
        under(self.prefix_text(), "backfill-plans/"@ + plan_id + "/events/"@)
    }

    /// The key of an event.
    pub open spec fn event_key(self, plan_id: Seq<char>, event_id: Seq<char>) -> Seq<char> {
        under(
            self.prefix_text(),
            "backfill-plans/"@ + plan_id + "/events/"@ + (event_id + ".json"@),
        )
    }

    /// The key of a committed audio file.
    pub open spec fn music_key(self, relative: Seq<char>) -> Seq<char> {
        under(self.music_prefix_text(), text::trim_start(relative, '/'))
    }

    /// The key prefix of an import's staged uploads.
    pub open spec fn staging_prefix(self, import_job_id: Seq<char>) -> Seq<char> {
        self.prefix_text() + "/staging/"@ + import_job_id
    }

    /// Key of the immutable index of one generation.
    pub fn archive_index_generation(&self, generation: u64) -> (r: String)
        ensures
            r@ == self.index_key(generation as nat),
    {
        let number = text::decimal_text(generation);
        let name = text::cat3("archive-index/", number.as_str(), ".jsonl");
        self.join(name.as_str())
    }

    pub fn archive_index_sqlite(&self) -> (r: String)
        ensures
            r@ == under(self.prefix_text(), "archive-index.sqlite"@),
    {
        self.join(ARCHIVE_INDEX_SQLITE)
    }

    pub fn schema_version(&self) -> (r: String)
        ensures
            r@ == self.marker_key(),
    {
        self.join(SCHEMA_VERSION_JSON)
    }

    pub fn playlists_jsonl(&self) -> (r: String)
        ensures
            r@ == under(self.prefix_text(), "playlists.jsonl"@),
    {
        self.join(PLAYLISTS_JSONL)
    }

    /// Key prefix of the staged uploads of an import job.
    pub fn staging(&self, import_job_id: &str) -> (r: String)
        ensures
            r@ == self.staging_prefix(import_job_id@),
    {
        text::cat3(self.prefix.as_str(), "/staging/", import_job_id)
    }

    /// Key of a committed audio file.
    pub fn music(&self, relative: &str) -> (r: String)
        ensures
            r@ == self.music_key(relative@),
    {
        let name = text::trim_start_text(relative, '/');
        text::cat3(self.music_prefix.as_str(), "/", name.as_str())
    }

    /// Key of a cover-art object, in a namespace of its own.
    pub fn artwork(&self, relative: &str) -> (r: String)
        ensures
            r@ == "artwork/"@ + text::trim_start(relative@, '/'),
    {
        let name = text::trim_start_text(relative, '/');
        text::cat2("artwork/", name.as_str())
    }

    /// Key of the artwork manifest.
    pub fn artwork_manifest(&self) -> (r: String)
        ensures
            r@ == under(self.prefix_text(), "manifests/artwork.jsonl"@),
    {
        self.join(ARTWORK_MANIFEST_JSONL)
    }

    /// Key of a plan. Never rewritten.
    pub fn backfill_plan(&self, plan_id: &str) -> (r: String)
        ensures
            r@ == self.plan_key(plan_id@),
    {
        let name = text::cat3("backfill-plans/", plan_id, ".json");
        self.join(name.as_str())
    }

    /// Key prefix of all plans.
    pub fn backfill_plans_prefix(&self) -> (r: String)
        ensures
            r@ == self.plans_prefix(),
    {
        self.join("backfill-plans/")
    }

    /// Key of one event of a plan. Written once.
    pub fn chunk_event(&self, plan_id: &str, event_id: &str) -> (r: String)
        ensures
            r@ == self.event_key(plan_id@, event_id@),
    {
        let file = text::cat2(event_id, ".json");
        let name = text::cat4("backfill-plans/", plan_id, "/events/", file.as_str());
        self.join(name.as_str())
    }

    /// Key prefix of the events of a plan.
    pub fn chunk_events_prefix(&self, plan_id: &str) -> (r: String)
        ensures
            r@ == self.events_prefix(plan_id@),
    {
        let name = text::cat3("backfill-plans/", plan_id, "/events/");
        self.join(name.as_str())
    }
}

/// Where everything stands in a bucket: the marker, the indexes by generation, the
/// plans with their events, what is staged by each import, and the music.
pub proof fn law_bucket_layout(
    paths: BucketPaths,
    generation: nat,
    id: Seq<char>,
    event: Seq<char>,
    file: Seq<char>,
)
    requires
        file.len() > 0,
        file[0] != '/',
    ensures
        paths.marker_key() == paths.prefix_text() + "/schema-version.json"@,
        paths.index_key(generation) == paths.prefix_text() + "/archive-index/"@ + text::decimal(
            generation,
        ) + ".jsonl"@,
        paths.plan_key(id) == paths.prefix_text() + "/backfill-plans/"@ + id + ".json"@,
        paths.event_key(id, event) == paths.prefix_text() + "/backfill-plans/"@ + id
            + "/events/"@ + event + ".json"@,
        paths.staging_prefix(id) == paths.prefix_text() + "/staging/"@ + id,
        paths.music_key(file) == paths.music_prefix_text() + "/"@ + file,
{
    reveal_strlit("/");
    reveal_strlit("schema-version.json");
    reveal_strlit("/schema-version.json");
    reveal_strlit("archive-index/");
    reveal_strlit("/archive-index/");
    reveal_strlit("backfill-plans/");
    reveal_strlit("/backfill-plans/");
    assert("/"@ + "schema-version.json"@ =~= "/schema-version.json"@);
    assert("/"@ + "archive-index/"@ =~= "/archive-index/"@);
    assert("/"@ + "backfill-plans/"@ =~= "/backfill-plans/"@);
    let p = paths.prefix_text();
    assert(paths.marker_key() =~= p + "/schema-version.json"@);
    assert(paths.index_key(generation) =~= p + "/archive-index/"@ + text::decimal(generation)
        + ".jsonl"@);
    assert(paths.plan_key(id) =~= p + "/backfill-plans/"@ + id + ".json"@);
    assert(paths.event_key(id, event) =~= p + "/backfill-plans/"@ + id + "/events/"@ + event
        + ".json"@);
}

/// No two generations share an index key, so no index ever takes the place of
/// another.
pub proof fn law_index_keys_distinct(paths: BucketPaths, a: nat, b: nat)
    requires
        paths.index_key(a) == paths.index_key(b),
    ensures
        a == b,
{
    let head = paths.prefix_text() + "/"@ + "archive-index/"@;
    let tail = ".jsonl"@;
    let x = text::decimal(a);
    let y = text::decimal(b);
    assert(paths.index_key(a) =~= head + x + tail);
    assert(paths.index_key(b) =~= head + y + tail);
    assert(x.len() == y.len());
    assert forall|i: int| 0 <= i < x.len() implies x[i] == y[i] by {
        assert((head + x + tail)[head.len() + i] == x[i]);
        assert((head + y + tail)[head.len() + i] == y[i]);
    }
    assert(x =~= y);
    text::lemma_decimal_injective(a, b);
}

/// No index key is the marker's key, so writing an index never moves the
/// marker.
pub proof fn law_index_is_not_marker(paths: BucketPaths, generation: nat)
    ensures
        paths.index_key(generation) != paths.marker_key(),
{
    reveal_strlit("archive-index/");
    reveal_strlit("schema-version.json");
    reveal_strlit("/");
    let p = paths.prefix_text();
    let name = "archive-index/"@ + text::decimal(generation) + ".jsonl"@;
    assert(paths.index_key(generation)[p.len() as int + 1] == name[0]);
    assert(name[0] == 'a');
    assert(paths.marker_key()[p.len() as int + 1] == 's');
}

/// Every event of a plan is listed under the plan's event prefix, and every
/// plan under the prefix of the plans.
pub proof fn law_keys_listed_under_their_prefix(
    paths: BucketPaths,
    plan_id: Seq<char>,
    event_id: Seq<char>,
)
    ensures
        paths.events_prefix(plan_id).is_prefix_of(paths.event_key(plan_id, event_id)),
        paths.plans_prefix().is_prefix_of(paths.plan_key(plan_id)),
        paths.plans_prefix().is_prefix_of(paths.event_key(plan_id, event_id)),
{
    let p = paths.prefix_text() + "/"@;
    let e = paths.event_key(plan_id, event_id);
    assert(e.subrange(0, paths.events_prefix(plan_id).len() as int) =~= paths.events_prefix(
        plan_id,
    ));
    assert(e.subrange(0, paths.plans_prefix().len() as int) =~= paths.plans_prefix());
    let k = paths.plan_key(plan_id);
    assert(k.subrange(0, paths.plans_prefix().len() as int) =~= paths.plans_prefix());
}

/// Two events of a plan with different ids never share a key: recording one
/// never overwrites another.
pub proof fn law_event_keys_distinct(
    paths: BucketPaths,
    plan_id: Seq<char>,
    a: Seq<char>,
    b: Seq<char>,
)
    requires
        paths.event_key(plan_id, a) == paths.event_key(plan_id, b),
    ensures
        a == b,
{
    let head = paths.events_prefix(plan_id);
    let tail = ".json"@;
    assert(paths.event_key(plan_id, a) =~= head + a + tail);
    assert(paths.event_key(plan_id, b) =~= head + b + tail);
    assert(a.len() == b.len());
    assert forall|i: int| 0 <= i < a.len() implies a[i] == b[i] by {
        assert((head + a + tail)[head.len() + i] == a[i]);
        assert((head + b + tail)[head.len() + i] == b[i]);
    }
    assert(a =~= b);
}

// ---------------------------------------------------------------------------
// Lines
// ---------------------------------------------------------------------------

/// Lines, each with a line feed behind it.
pub open spec fn lines_text(lines: Seq<Seq<char>>) -> Seq<char>
    decreases lines.len(),
{
    if lines.len() == 0 {
        Seq::empty()
    } else {
        lines_text(lines.drop_last()) + lines.last() + seq!['\n']
    }
}

/// The lines of a text that hold something, trimmed.
pub open spec fn kept_lines(pieces: Seq<Seq<char>>) -> Seq<Seq<char>>
    decreases pieces.len(),
{
    if pieces.len() == 0 {
        Seq::empty()
    } else {
        let front = kept_lines(pieces.drop_last());
        if text::trimmed(pieces.last()).len() == 0 {
            front
        } else {
            front.push(text::trimmed(pieces.last()))
        }
    }
}

/// The text that some bytes stand for, faulty parts replaced.
pub uninterp spec fn utf8_lossy(bytes: Seq<u8>) -> Seq<char>;

/// The text that some bytes stand for.
///
/// Trusted: `String::from_utf8_lossy`. The result depends on the bytes alone,
/// and valid UTF-8 comes out as it is.
#[verifier::external_body]
fn text_lossy(bytes: &[u8]) -> (r: String)
    ensures
        r@ == utf8_lossy(bytes@),
        vstd::utf8::valid_utf8(bytes@) ==> r@ == vstd::utf8::decode_utf8(bytes@),
{
    String::from_utf8_lossy(bytes).into_owned()
}

/// Writes records, one line each.
pub fn lines_to_jsonl(lines: &Vec<String>) -> (r: Vec<u8>)
    ensures
        r@ == vstd::utf8::encode_utf8(lines_text(text::views(lines@))),
{
    let mut s = String::new();
    let mut i: usize = 0;
    let ghost all = text::views(lines@);
    proof {
        assert(all.take(0) =~= Seq::<Seq<char>>::empty());
    }
    while i < lines.len()
        invariant
            i <= lines@.len(),
            all == text::views(lines@),
            s@ == lines_text(all.take(i as int)),
        decreases lines@.len() - i,
    {
        proof {
            assert(all.take(i + 1).drop_last() =~= all.take(i as int));
            assert(all.take(i + 1).last() == lines@[i as int]@);
        }
        let ghost before = s@;
        s.append(lines[i].as_str());
        s.push('\n');
        proof {
            assert(s@ =~= before + lines@[i as int]@ + seq!['\n']);
        }
        i = i + 1;
    }
    proof {
        assert(all.take(lines@.len() as int) =~= all);
    }
    stub::copy_bytes(s.as_str().as_bytes())
}

/// The lines of a text that hold something, trimmed.
pub fn kept_lines_of(s: &str) -> (r: Vec<String>)
    ensures
        text::views(r@) == kept_lines(text::split(s@, '\n')),
{
    let pieces = text::split_text(s, '\n');
    let ghost all = text::views(pieces@);
    let mut r: Vec<String> = Vec::new();
    let mut i: usize = 0;
    proof {
        assert(all.take(0) =~= Seq::<Seq<char>>::empty());
        assert(text::views(r@) =~= Seq::<Seq<char>>::empty());
    }
    while i < pieces.len()
        invariant
            i <= pieces@.len(),
            all == text::views(pieces@),
            text::views(r@) == kept_lines(all.take(i as int)),
        decreases pieces@.len() - i,
    {
        proof {
            assert(all.take(i + 1).drop_last() =~= all.take(i as int));
            assert(all.take(i + 1).last() == pieces@[i as int]@);
        }
        let ghost before = text::views(r@);
        let line = text::trim(pieces[i].as_str());
        if !line.as_str().is_empty() {
            r.push(line);
            proof {
                assert(text::views(r@) =~= before.push(line@));
            }
        }
        i = i + 1;
    }
    proof {
        assert(all.take(pieces@.len() as int) =~= all);
    }
    r
}

/// Reads records, one line each, blank lines left out.
pub fn lines_from_jsonl(bytes: &[u8]) -> (r: Vec<String>)
    ensures
        text::views(r@) == kept_lines(text::split(utf8_lossy(bytes@), '\n')),
        vstd::utf8::valid_utf8(bytes@) ==> text::views(r@) == kept_lines(
            text::split(vstd::utf8::decode_utf8(bytes@), '\n'),
        ),
{
    let s = text_lossy(bytes);
    kept_lines_of(s.as_str())
}

/// Which pieces have more than white space.
pub open spec fn has_words(pieces: Seq<Seq<char>>) -> spec_fn(int) -> bool {
    |i: int| text::trimmed(pieces[i]).len() > 0
}

/// Each piece without the white space around it.
pub open spec fn trimmed_at(pieces: Seq<Seq<char>>) -> spec_fn(int) -> Seq<char> {
    |i: int| text::trimmed(pieces[i])
}

/// Reading lines passes over the blank ones, and keeps every other, in order.
pub proof fn law_only_blank_lines_are_passed_over(pieces: Seq<Seq<char>>)
    ensures
        selection::is_selection(
            kept_lines(pieces),
            pieces.len() as int,
            has_words(pieces),
            trimmed_at(pieces),
        ),
    decreases pieces.len(),
{
    if pieces.len() == 0 {
        selection::lemma_selection_empty(has_words(pieces), trimmed_at(pieces));
    } else {
        let front = pieces.drop_last();
        law_only_blank_lines_are_passed_over(front);
        selection::lemma_selection_grows(
            kept_lines(front),
            front.len() as int,
            has_words(front),
            trimmed_at(front),
            kept_lines(pieces),
            has_words(pieces),
            trimmed_at(pieces),
        );
    }
}

/// Each record is written as a line of its own.
pub proof fn law_each_record_is_a_line(lines: Seq<Seq<char>>, more: Seq<char>)
    ensures
        lines_text(lines.push(more)) == lines_text(lines) + more + seq!['\n'],
        lines_text(Seq::empty()).len() == 0,
{
    assert(lines.push(more).drop_last() =~= lines);
}

/// Whether a text can be a record: it has something on it, no white space at
/// either end, and no line feed.
pub open spec fn is_record(line: Seq<char>) -> bool {
    &&& line.len() > 0
    &&& !text::is_white(line[0])
    &&& !text::is_white(line.last())
    &&& !line.contains('\n')
}

proof fn lemma_split_lines(lines: Seq<Seq<char>>)
    requires
        forall|i: int| 0 <= i < lines.len() ==> is_record(#[trigger] lines[i]),
    ensures
        text::split(lines_text(lines), '\n') == lines.push(Seq::empty()),
    decreases lines.len(),
{
    if lines.len() == 0 {
        assert(text::split(Seq::<char>::empty(), '\n') =~= lines.push(Seq::empty()));
    } else {
        let front = lines.drop_last();
        assert forall|i: int| 0 <= i < front.len() implies is_record(#[trigger] front[i]) by {
            assert(front[i] == lines[i]);
        }
        lemma_split_lines(front);
        let last = lines.last();
        assert(is_record(lines[lines.len() - 1]));
        let body = lines_text(front) + last;
        let whole = lines_text(lines);
        assert(whole =~= body.push('\n'));
        assert(whole.drop_last() =~= body);
        assert(text::split(body, '\n') == lines) by {
            lemma_split_body(lines_text(front), front, last);
            assert(front.push(last) =~= lines);
        }
    }
}

/// Text behind a line feed makes up the last piece.
proof fn lemma_split_body(head: Seq<char>, pieces: Seq<Seq<char>>, last: Seq<char>)
    requires
        text::split(head, '\n') == pieces.push(Seq::empty()),
        !last.contains('\n'),
    ensures
        text::split(head + last, '\n') == pieces.push(last),
    decreases last.len(),
{
    if last.len() == 0 {
        assert(head + last =~= head);
        assert(last =~= Seq::<char>::empty());
    } else {
        let init = last.drop_last();
        assert(!init.contains('\n')) by {
            if init.contains('\n') {
                let k = choose|k: int| 0 <= k < init.len() && init[k] == '\n';
                assert(last[k] == '\n');
            }
        }
        lemma_split_body(head, pieces, init);
        let whole = head + last;
        assert(whole.drop_last() =~= head + init);
        assert(whole.last() == last.last());
        assert(last.last() != '\n') by {
            assert(last[last.len() - 1] == last.last());
        }
        assert(pieces.push(init).drop_last() =~= pieces);
        assert(init.push(last.last()) =~= last);
    }
}

proof fn lemma_kept(lines: Seq<Seq<char>>)
    requires
        forall|i: int| 0 <= i < lines.len() ==> is_record(#[trigger] lines[i]),
    ensures
        kept_lines(lines) == lines,
    decreases lines.len(),
{
    if lines.len() > 0 {
        let front = lines.drop_last();
        assert forall|i: int| 0 <= i < front.len() implies is_record(#[trigger] front[i]) by {
            assert(front[i] == lines[i]);
        }
        lemma_kept(front);
        assert(is_record(lines[lines.len() - 1]));
        assert(text::trimmed(lines.last()) == lines.last());
        assert(front.push(lines.last()) =~= lines);
    } else {
        assert(kept_lines(lines) =~= lines);
    }
}

/// Reading gives back what was written: every record, in order, none merged
/// and none lost.
pub proof fn law_jsonl_round_trip(lines: Seq<Seq<char>>)
    requires
        forall|i: int| 0 <= i < lines.len() ==> is_record(#[trigger] lines[i]),
    ensures
        vstd::utf8::valid_utf8(vstd::utf8::encode_utf8(lines_text(lines))),
        kept_lines(text::split(vstd::utf8::decode_utf8(vstd::utf8::encode_utf8(lines_text(lines))), '\n')) == lines,
{
    broadcast use vstd::utf8::encode_utf8_valid_utf8, vstd::utf8::encode_utf8_decode_utf8;

    assert(vstd::utf8::decode_utf8(vstd::utf8::encode_utf8(lines_text(lines))) == lines_text(lines));
    lemma_split_lines(lines);
    lemma_kept(lines);
    let pieces = lines.push(Seq::<char>::empty());
    assert(pieces.drop_last() =~= lines);
    assert(text::trimmed(Seq::<char>::empty()) =~= Seq::<char>::empty());
}

} // verus!
