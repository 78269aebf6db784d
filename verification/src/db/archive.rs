//! The cache of the archive index: its rows, and the queries put to it.

use vstd::prelude::*;

use crate::error::Error;
use crate::model;
use crate::model::{ArchiveEntry, Metadata, Timestamp, TrackId};
use crate::query::QuerySpec;
use crate::selection;
use crate::text;
use crate::time;

verus! {

/// The columns of a track, in the order in which they are read.
pub const COLUMNS: &'static str = "track_id, object_key, size_bytes, sha256, title, artist, album, genre, year, bpm, key_camelot, duration_secs, comment, file_type, tags, imported_at, updated_at, source_path_original, artwork_object_key, library_relative_path";

// ---------------------------------------------------------------------------
// Queries
// ---------------------------------------------------------------------------

/// An argument of a query.
#[derive(Debug, Clone, PartialEq, Eq)]
pub enum Value {
    Text(String),
    Integer(i64),
    /// The bits of an IEEE 754 single.
    Real(u32),
}

/// An argument, as the contracts speak of it.
pub enum Arg {
    Text(Seq<char>),
    Integer(int),
    Real(u32),
}

impl View for Value {
    type V = Arg;

    open spec fn view(&self) -> Arg {
        match *self {
            Value::Text(s) => Arg::Text(s@),
            Value::Integer(n) => Arg::Integer(n as int),
            Value::Real(b) => Arg::Real(b),
        }
    }
}

/// The arguments that a list holds.
pub open spec fn arg_views(list: Seq<Value>) -> Seq<Arg> {
    list.map_values(|v: Value| v@)
}

/// What the contracts say of an argument they say of the value that is bound.
pub proof fn law_argument_is_the_bound_value(list: Seq<Value>, i: int)
    requires
        0 <= i < list.len(),
    ensures
        arg_views(list).len() == list.len(),
        match list[i] {
            Value::Text(s) => arg_views(list)[i] == Arg::Text(s@),
            Value::Integer(n) => arg_views(list)[i] == Arg::Integer(n as int),
            Value::Real(b) => arg_views(list)[i] == Arg::Real(b),
        },
{
}

/// A query in the making: its text and its arguments.
pub struct Sql {
    pub text: Seq<char>,
    pub args: Seq<Arg>,
}

/// The pattern that finds a text anywhere.
pub open spec fn like_pattern(s: Seq<char>) -> Seq<char> {
    "%"@ + s + "%"@
}

/// The place holder of the `n`-th argument.
pub open spec fn holder(n: nat) -> Seq<char> {
    "?"@ + text::decimal(n)
}

/// A query with one more condition on the argument that is added for it.
pub open spec fn with_condition(q: Sql, condition: Seq<char>, arg: Arg) -> Sql {
    Sql {
        text: q.text + condition + holder(q.args.len() + 1),
        args: q.args.push(arg),
    }
}

/// A query with a free-text condition, if there is one.
pub open spec fn with_text(q: Sql, wanted: Option<Seq<char>>) -> Sql {
    match wanted {
        None => q,
        Some(s) => {
            let n = q.args.len();
            let p = Arg::Text(like_pattern(s));
            Sql {
                text: q.text + (" AND (title LIKE "@ + holder(n + 1)) + (" OR artist LIKE "@
                    + holder(n + 2)) + (" OR album LIKE "@ + holder(n + 3)) + (
                " OR comment LIKE "@ + holder(n + 4)) + ")"@,
                args: q.args.push(p).push(p).push(p).push(p),
            }
        },
    }
}

/// A query with a condition on a text column, if there is one.
pub open spec fn with_eq(q: Sql, column: Seq<char>, wanted: Option<Seq<char>>) -> Sql {
    match wanted {
        None => q,
        Some(s) => with_condition(q, " AND "@ + column + " = "@, Arg::Text(s)),
    }
}

/// A query with a bound on the beats per minute, if there is one.
pub open spec fn with_bpm(q: Sql, condition: Seq<char>, bound: Option<u32>) -> Sql {
    match bound {
        None => q,
        Some(b) => with_condition(q, condition, Arg::Real(b)),
    }
}

/// A query with a bound on the year, if there is one.
pub open spec fn with_year(q: Sql, condition: Seq<char>, bound: Option<i32>) -> Sql {
    match bound {
        None => q,
        Some(y) => with_condition(q, condition, Arg::Integer(y as int)),
    }
}

/// The query for a specification.
pub open spec fn sql_of(spec: QuerySpec) -> Sql {
    let q = Sql { text: "SELECT "@ + COLUMNS@ + " FROM tracks WHERE 1=1"@, args: Seq::empty() };
    let q = with_text(q, text::opt_view(spec.text));
    let q = with_eq(q, "artist"@, text::opt_view(spec.artist));
    let q = with_eq(q, "album"@, text::opt_view(spec.album));
    let q = with_eq(q, "genre"@, text::opt_view(spec.genre));
    let q = with_eq(q, "key_camelot"@, text::opt_view(spec.key));
    let q = with_eq(q, "file_type"@, text::opt_view(spec.file_type));
    let q = with_bpm(q, " AND bpm >= "@, spec.bpm.min);
    let q = with_bpm(q, " AND bpm <= "@, spec.bpm.max);
    let q = with_year(q, " AND year >= "@, spec.year.min);
    let q = with_year(q, " AND year <= "@, spec.year.max);
    Sql {
        text: q.text + " ORDER BY artist, album, title"@ + match spec.limit {
            Some(n) => " LIMIT "@ + text::decimal(n as nat),
            None => Seq::empty(),
        },
        args: q.args,
    }
}

// ---------------------------------------------------------------------------
// What a query means
// ---------------------------------------------------------------------------

/// One comparison in a query: a column, an operator, and the argument that the
/// column is compared with.
pub struct Test {
    pub column: Seq<char>,
    pub op: Seq<char>,
    pub arg: Arg,
}

/// What a track has in a column. `None` stands for `NULL`.
pub open spec fn cell(e: model::EntryView, column: Seq<char>) -> Option<Arg> {
    if column == "title"@ {
        text_cell(e.metadata.title)
    } else if column == "artist"@ {
        text_cell(e.metadata.artist)
    } else if column == "album"@ {
        text_cell(e.metadata.album)
    } else if column == "genre"@ {
        text_cell(e.metadata.genre)
    } else if column == "key_camelot"@ {
        text_cell(e.metadata.key)
    } else if column == "comment"@ {
        text_cell(e.metadata.comment)
    } else if column == "file_type"@ {
        text_cell(e.metadata.file_type)
    } else if column == "year"@ {
        match e.metadata.year {
            Some(y) => Some(Arg::Integer(y as int)),
            None => None,
        }
    } else if column == "bpm"@ {
        match e.metadata.bpm {
            Some(b) => Some(Arg::Real(b)),
            None => None,
        }
    } else {
        None
    }
}

/// What a text column holds.
pub open spec fn text_cell(s: Option<String>) -> Option<Arg> {
    match s {
        Some(t) => Some(Arg::Text(t@)),
        None => None,
    }
}

/// How a database compares what these contracts do not: which of two numbers, given
/// by their bits, is at most the other, and which text a pattern finds.
pub struct Comparing {
    pub at_most: spec_fn(u32, u32) -> bool,
    pub is_like: spec_fn(Seq<char>, Seq<char>) -> bool,
}

/// Whether a value is at most another.
pub open spec fn is_at_most(a: Arg, b: Arg, by: Comparing) -> bool {
    match (a, b) {
        (Arg::Integer(x), Arg::Integer(y)) => x <= y,
        (Arg::Real(x), Arg::Real(y)) => (by.at_most)(x, y),
        _ => false,
    }
}

/// Whether a track passes a comparison. `NULL` passes none.
pub open spec fn passes(e: model::EntryView, t: Test, by: Comparing) -> bool {
    match cell(e, t.column) {
        None => false,
        Some(v) => if t.op == "="@ {
            v == t.arg
        } else if t.op == "<="@ {
            is_at_most(v, t.arg, by)
        } else if t.op == ">="@ {
            is_at_most(t.arg, v, by)
        } else if t.op == "LIKE"@ {
            v is Text && t.arg is Text && (by.is_like)(v->Text_0, t.arg->Text_0)
        } else {
            false
        },
    }
}

/// Whether a track passes one of some comparisons.
pub open spec fn passes_one(e: model::EntryView, tests: Seq<Test>, by: Comparing) -> bool {
    exists|k: int| 0 <= k < tests.len() && passes(e, #[trigger] tests[k], by)
}

/// Whether a track passes one of the comparisons of each condition.
pub open spec fn passes_all(e: model::EntryView, conditions: Seq<Seq<Test>>, by: Comparing) -> bool {
    forall|i: int| 0 <= i < conditions.len() ==> passes_one(e, #[trigger] conditions[i], by)
}

/// The text of a comparison with the `n`-th argument.
pub open spec fn test_text(t: Test, n: nat) -> Seq<char> {
    t.column + " "@ + t.op + " "@ + ("?"@ + text::decimal(n))
}

/// The text of comparisons of which one has to pass, the first with the argument
/// after the `n`-th.
pub open spec fn any_text(tests: Seq<Test>, n: nat) -> Seq<char>
    decreases tests.len(),
{
    if tests.len() == 0 {
        Seq::empty()
    } else if tests.len() == 1 {
        test_text(tests[0], n + 1)
    } else {
        any_text(tests.drop_last(), n) + " OR "@ + test_text(tests.last(), n + tests.len())
    }
}

/// A query with one more condition.
pub open spec fn with_any(q: Sql, tests: Seq<Test>) -> Sql {
    Sql {
        text: q.text + " AND "@ + (if tests.len() == 1 {
            any_text(tests, q.args.len())
        } else {
            "("@ + any_text(tests, q.args.len()) + ")"@
        }),
        args: q.args + tests.map_values(|t: Test| t.arg),
    }
}

/// A query for the tracks that meet all of some conditions.
pub open spec fn with_all(conditions: Seq<Seq<Test>>) -> Sql
    decreases conditions.len(),
{
    if conditions.len() == 0 {
        Sql { text: "SELECT "@ + COLUMNS@ + " FROM tracks WHERE 1=1"@, args: Seq::empty() }
    } else {
        with_any(with_all(conditions.drop_last()), conditions.last())
    }
}

/// Whether a text column holds exactly what is asked for, if anything is.
pub open spec fn has_text(found: Option<String>, wanted: Option<String>) -> bool {
    wanted is Some ==> found is Some && found->0@ == wanted->0@
}

/// Whether a text column holds something like a pattern.
pub open spec fn has_like(found: Option<String>, pattern: Seq<char>, by: Comparing) -> bool {
    found is Some && (by.is_like)(found->0@, pattern)
}

/// Whether a track is one that a specification asks for, its tags apart.
pub open spec fn is_asked_for(e: model::EntryView, spec: QuerySpec, by: Comparing) -> bool {
    let m = e.metadata;
    &&& spec.text is Some ==> {
        let pattern = "%"@ + spec.text->0@ + "%"@;
        ||| has_like(m.title, pattern, by)
        ||| has_like(m.artist, pattern, by)
        ||| has_like(m.album, pattern, by)
        ||| has_like(m.comment, pattern, by)
    }
    &&& has_text(m.artist, spec.artist)
    &&& has_text(m.album, spec.album)
    &&& has_text(m.genre, spec.genre)
    &&& has_text(m.key, spec.key)
    &&& has_text(m.file_type, spec.file_type)
    &&& spec.bpm.min is Some ==> m.bpm is Some && (by.at_most)(spec.bpm.min->0, m.bpm->0)
    &&& spec.bpm.max is Some ==> m.bpm is Some && (by.at_most)(m.bpm->0, spec.bpm.max->0)
    &&& spec.year.min is Some ==> m.year is Some && spec.year.min->0 <= m.year->0
    &&& spec.year.max is Some ==> m.year is Some && m.year->0 <= spec.year.max->0
}

/// Whether a query is one for the tracks that meet some conditions, by artist, album
/// and title, and for no more of them than the limit.
pub open spec fn asks_for(q: Sql, conditions: Seq<Seq<Test>>, limit: Option<u32>) -> bool {
    &&& q.args == with_all(conditions).args
    &&& q.text == with_all(conditions).text + " ORDER BY artist, album, title"@ + match limit {
        Some(n) => " LIMIT "@ + text::decimal(n as nat),
        None => Seq::empty(),
    }
}

/// Whether conditions are met by the tracks that a specification asks for, and by no
/// others, however numbers and patterns are compared.
pub open spec fn are_met_by_asked_for(conditions: Seq<Seq<Test>>, spec: QuerySpec) -> bool {
    forall|e: model::EntryView, by: Comparing| #[trigger]
        passes_all(e, conditions, by) == is_asked_for(e, spec, by)
}

/// One comparison with an argument, if there is one.
spec fn also(conditions: Seq<Seq<Test>>, column: Seq<char>, op: Seq<char>, arg: Option<Arg>) -> Seq<
    Seq<Test>,
> {
    match arg {
        None => conditions,
        Some(a) => conditions.push(seq![Test { column, op, arg: a }]),
    }
}

/// One more comparison is one more thing to pass.
proof fn lemma_also(
    conditions: Seq<Seq<Test>>,
    column: Seq<char>,
    op: Seq<char>,
    arg: Option<Arg>,
    e: model::EntryView,
    by: Comparing,
)
    ensures
        passes_all(e, also(conditions, column, op, arg), by) == (passes_all(e, conditions, by) && (
        arg is Some ==> passes(e, Test { column, op, arg: arg->0 }, by))),
{
    if arg is Some {
        let t = Test { column, op, arg: arg->0 };
        let one = seq![t];
        let all = conditions.push(one);
        assert(one[0] == t);
        assert(passes_one(e, one, by) == passes(e, t, by));
        if passes_all(e, all, by) {
            assert(all[conditions.len() as int] == one);
            assert forall|i: int| 0 <= i < conditions.len() implies passes_one(
                e,
                #[trigger] conditions[i],
                by,
            ) by {
                assert(all[i] == conditions[i]);
            }
        }
    }
}

/// The text of one more comparison.
proof fn lemma_also_text(
    conditions: Seq<Seq<Test>>,
    column: Seq<char>,
    op: Seq<char>,
    arg: Option<Arg>,
    condition: Seq<char>,
)
    requires
        condition == " AND "@ + column + " "@ + op + " "@,
    ensures
        with_all(also(conditions, column, op, arg)) == (match arg {
            None => with_all(conditions),
            Some(a) => with_condition(with_all(conditions), condition, a),
        }),
{
    if arg is Some {
        let q = with_all(conditions);
        let t = Test { column, op, arg: arg->0 };
        let one = seq![t];
        let all = conditions.push(one);
        assert(all.drop_last() =~= conditions);
        assert(one.map_values(|t: Test| t.arg) =~= seq![t.arg]);
        let n = q.args.len();
        assert(any_text(one, n) == test_text(t, n + 1));
        assert(q.text + " AND "@ + test_text(t, n + 1) =~= q.text + condition + holder(n + 1));
        assert(q.args + seq![t.arg] =~= q.args.push(t.arg));
    }
}

/// The argument of a comparison with a text, if there is one.
spec fn text_arg(s: Option<String>) -> Option<Arg> {
    match s {
        Some(t) => Some(Arg::Text(t@)),
        None => None,
    }
}

/// The argument of a comparison with a number of beats, if there is one.
spec fn bpm_arg(b: Option<u32>) -> Option<Arg> {
    match b {
        Some(x) => Some(Arg::Real(x)),
        None => None,
    }
}

/// The argument of a comparison with a year, if there is one.
spec fn year_arg(y: Option<i32>) -> Option<Arg> {
    match y {
        Some(x) => Some(Arg::Integer(x as int)),
        None => None,
    }
}

/// The comparisons of a free text.
spec fn text_tests(p: Arg) -> Seq<Test> {
    seq![
        Test { column: "title"@, op: "LIKE"@, arg: p },
        Test { column: "artist"@, op: "LIKE"@, arg: p },
        Test { column: "album"@, op: "LIKE"@, arg: p },
        Test { column: "comment"@, op: "LIKE"@, arg: p },
    ]
}

/// The condition of a free text, if there is one.
spec fn text_conditions(wanted: Option<String>) -> Seq<Seq<Test>> {
    match wanted {
        None => Seq::empty(),
        Some(s) => seq![text_tests(Arg::Text("%"@ + s@ + "%"@))],
    }
}

/// The text of the condition of a free text.
proof fn lemma_text_conditions(wanted: Option<String>)
    ensures
        with_all(text_conditions(wanted)) == with_text(
            with_all(Seq::empty()),
            text::opt_view(wanted),
        ),
{
    if let Some(s) = wanted {
        let p = Arg::Text(like_pattern(s@));
        let tests = text_tests(p);
        let q = with_all(Seq::empty());
        assert(text_conditions(wanted).drop_last() =~= Seq::empty());
        assert(text_conditions(wanted).last() == tests);
        let n = q.args.len();
        let t3 = tests.drop_last();
        let t2 = t3.drop_last();
        let t1 = t2.drop_last();
        assert(t1[0] == tests[0] && t2.last() == tests[1] && t3.last() == tests[2]);
        assert(any_text(t1, n) == test_text(tests[0], n + 1));
        assert(any_text(t2, n) == any_text(t1, n) + " OR "@ + test_text(tests[1], n + 2));
        assert(any_text(t3, n) == any_text(t2, n) + " OR "@ + test_text(tests[2], n + 3));
        assert(any_text(tests, n) == any_text(t3, n) + " OR "@ + test_text(tests[3], n + 4));
        reveal_strlit(" AND (title LIKE ");
        reveal_strlit(" OR artist LIKE ");
        reveal_strlit(" OR album LIKE ");
        reveal_strlit(" OR comment LIKE ");
        reveal_strlit(" AND ");
        reveal_strlit("(");
        reveal_strlit(" ");
        reveal_strlit("LIKE");
        reveal_strlit(" OR ");
        reveal_strlit("title");
        reveal_strlit("artist");
        reveal_strlit("album");
        reveal_strlit("comment");
        assert(" AND (title LIKE "@ =~= " AND "@ + "("@ + "title"@ + " "@ + "LIKE"@ + " "@);
        assert(" OR artist LIKE "@ =~= " OR "@ + "artist"@ + " "@ + "LIKE"@ + " "@);
        assert(" OR album LIKE "@ =~= " OR "@ + "album"@ + " "@ + "LIKE"@ + " "@);
        assert(" OR comment LIKE "@ =~= " OR "@ + "comment"@ + " "@ + "LIKE"@ + " "@);
        assert(with_any(q, tests).text =~= with_text(q, Some(s@)).text);
        assert(q.args + tests.map_values(|t: Test| t.arg) =~= q.args.push(p).push(p).push(p).push(
            p,
        ));
    }
}

/// What a track has in each column that is asked for.
proof fn lemma_cells(e: model::EntryView)
    ensures
        cell(e, "title"@) == text_cell(e.metadata.title),
        cell(e, "artist"@) == text_cell(e.metadata.artist),
        cell(e, "album"@) == text_cell(e.metadata.album),
        cell(e, "genre"@) == text_cell(e.metadata.genre),
        cell(e, "key_camelot"@) == text_cell(e.metadata.key),
        cell(e, "comment"@) == text_cell(e.metadata.comment),
        cell(e, "file_type"@) == text_cell(e.metadata.file_type),
        cell(e, "year"@) == year_arg(e.metadata.year),
        cell(e, "bpm"@) == bpm_arg(e.metadata.bpm),
        "="@ != "<="@,
        "="@ != ">="@,
        "<="@ != ">="@,
        "LIKE"@ != "="@,
        "LIKE"@ != "<="@,
        "LIKE"@ != ">="@,
{
    reveal_strlit("title");
    reveal_strlit("artist");
    reveal_strlit("album");
    reveal_strlit("genre");
    reveal_strlit("key_camelot");
    reveal_strlit("comment");
    reveal_strlit("file_type");
    reveal_strlit("year");
    reveal_strlit("bpm");
    reveal_strlit("=");
    reveal_strlit("<=");
    reveal_strlit(">=");
    reveal_strlit("LIKE");
    assert("title"@.len() == 5 && "artist"@.len() == 6 && "album"@.len() == 5 && "genre"@.len()
        == 5);
    assert("key_camelot"@.len() == 11 && "comment"@.len() == 7 && "file_type"@.len() == 9);
    assert("year"@.len() == 4 && "bpm"@.len() == 3);
    assert("="@.len() == 1 && "<="@.len() == 2 && ">="@.len() == 2 && "LIKE"@.len() == 4);
    assert("title"@[0] == 't' && "album"@[0] == 'a' && "genre"@[0] == 'g');
    assert("<="@[0] == '<' && ">="@[0] == '>');
}

/// How the texts of comparisons are put together.
proof fn lemma_comparison_texts(column: Seq<char>)
    ensures
        " AND "@ + column + " = "@ == " AND "@ + column + " "@ + "="@ + " "@,
        " AND bpm >= "@ == " AND "@ + "bpm"@ + " "@ + ">="@ + " "@,
        " AND bpm <= "@ == " AND "@ + "bpm"@ + " "@ + "<="@ + " "@,
        " AND year >= "@ == " AND "@ + "year"@ + " "@ + ">="@ + " "@,
        " AND year <= "@ == " AND "@ + "year"@ + " "@ + "<="@ + " "@,
{
    reveal_strlit(" AND ");
    reveal_strlit(" ");
    reveal_strlit(" = ");
    reveal_strlit("=");
    reveal_strlit("<=");
    reveal_strlit(">=");
    reveal_strlit("bpm");
    reveal_strlit("year");
    reveal_strlit(" AND bpm >= ");
    reveal_strlit(" AND bpm <= ");
    reveal_strlit(" AND year >= ");
    reveal_strlit(" AND year <= ");
    assert(" = "@ =~= " "@ + "="@ + " "@);
    assert(" AND "@ + column + " = "@ =~= " AND "@ + column + " "@ + "="@ + " "@);
    assert(" AND bpm >= "@ =~= " AND "@ + "bpm"@ + " "@ + ">="@ + " "@);
    assert(" AND bpm <= "@ =~= " AND "@ + "bpm"@ + " "@ + "<="@ + " "@);
    assert(" AND year >= "@ =~= " AND "@ + "year"@ + " "@ + ">="@ + " "@);
    assert(" AND year <= "@ =~= " AND "@ + "year"@ + " "@ + "<="@ + " "@);
}

proof fn lemma_eq_text(c: Seq<Seq<Test>>, q: Sql, column: Seq<char>, wanted: Option<String>)
    requires
        with_all(c) == q,
    ensures
        with_all(also(c, column, "="@, text_arg(wanted))) == with_eq(
            q,
            column,
            text::opt_view(wanted),
        ),
{
    lemma_comparison_texts(column);
    lemma_also_text(c, column, "="@, text_arg(wanted), " AND "@ + column + " = "@);
}

proof fn lemma_bpm_text(c: Seq<Seq<Test>>, q: Sql, spec: QuerySpec)
    requires
        with_all(c) == q,
    ensures
        with_all(
            also(
                also(c, "bpm"@, ">="@, bpm_arg(spec.bpm.min)),
                "bpm"@,
                "<="@,
                bpm_arg(spec.bpm.max),
            ),
        ) == with_bpm(
            with_bpm(q, " AND bpm >= "@, spec.bpm.min),
            " AND bpm <= "@,
            spec.bpm.max,
        ),
{
    lemma_comparison_texts("bpm"@);
    let d = also(c, "bpm"@, ">="@, bpm_arg(spec.bpm.min));
    lemma_also_text(c, "bpm"@, ">="@, bpm_arg(spec.bpm.min), " AND bpm >= "@);
    lemma_also_text(d, "bpm"@, "<="@, bpm_arg(spec.bpm.max), " AND bpm <= "@);
}

proof fn lemma_year_text(c: Seq<Seq<Test>>, q: Sql, spec: QuerySpec)
    requires
        with_all(c) == q,
    ensures
        with_all(
            also(
                also(c, "year"@, ">="@, year_arg(spec.year.min)),
                "year"@,
                "<="@,
                year_arg(spec.year.max),
            ),
        ) == with_year(
            with_year(q, " AND year >= "@, spec.year.min),
            " AND year <= "@,
            spec.year.max,
        ),
{
    lemma_comparison_texts("year"@);
    let d = also(c, "year"@, ">="@, year_arg(spec.year.min));
    lemma_also_text(c, "year"@, ">="@, year_arg(spec.year.min), " AND year >= "@);
    lemma_also_text(d, "year"@, "<="@, year_arg(spec.year.max), " AND year <= "@);
}

/// The conditions on text columns.
spec fn text_column_conditions(c: Seq<Seq<Test>>, spec: QuerySpec) -> Seq<Seq<Test>> {
    let c = also(c, "artist"@, "="@, text_arg(spec.artist));
    let c = also(c, "album"@, "="@, text_arg(spec.album));
    let c = also(c, "genre"@, "="@, text_arg(spec.genre));
    let c = also(c, "key_camelot"@, "="@, text_arg(spec.key));
    also(c, "file_type"@, "="@, text_arg(spec.file_type))
}

/// The conditions of a specification.
spec fn conditions_of(spec: QuerySpec) -> Seq<Seq<Test>> {
    let c = text_column_conditions(text_conditions(spec.text), spec);
    let c = also(c, "bpm"@, ">="@, bpm_arg(spec.bpm.min));
    let c = also(c, "bpm"@, "<="@, bpm_arg(spec.bpm.max));
    let c = also(c, "year"@, ">="@, year_arg(spec.year.min));
    also(c, "year"@, "<="@, year_arg(spec.year.max))
}

proof fn lemma_text_column_texts(c0: Seq<Seq<Test>>, q0: Sql, spec: QuerySpec)
    requires
        with_all(c0) == q0,
    ensures
        with_all(text_column_conditions(c0, spec)) == ({
            let q = with_eq(q0, "artist"@, text::opt_view(spec.artist));
            let q = with_eq(q, "album"@, text::opt_view(spec.album));
            let q = with_eq(q, "genre"@, text::opt_view(spec.genre));
            let q = with_eq(q, "key_camelot"@, text::opt_view(spec.key));
            with_eq(q, "file_type"@, text::opt_view(spec.file_type))
        }),
{
    let c1 = also(c0, "artist"@, "="@, text_arg(spec.artist));
    let q1 = with_eq(q0, "artist"@, text::opt_view(spec.artist));
    lemma_eq_text(c0, q0, "artist"@, spec.artist);
    let c2 = also(c1, "album"@, "="@, text_arg(spec.album));
    let q2 = with_eq(q1, "album"@, text::opt_view(spec.album));
    lemma_eq_text(c1, q1, "album"@, spec.album);
    let c3 = also(c2, "genre"@, "="@, text_arg(spec.genre));
    let q3 = with_eq(q2, "genre"@, text::opt_view(spec.genre));
    lemma_eq_text(c2, q2, "genre"@, spec.genre);
    let c4 = also(c3, "key_camelot"@, "="@, text_arg(spec.key));
    let q4 = with_eq(q3, "key_camelot"@, text::opt_view(spec.key));
    lemma_eq_text(c3, q3, "key_camelot"@, spec.key);
    lemma_eq_text(c4, q4, "file_type"@, spec.file_type);
}

#[verifier::rlimit(40)]
#[verifier::spinoff_prover]
proof fn lemma_conditions_text(spec: QuerySpec)
    ensures
        asks_for(sql_of(spec), conditions_of(spec), spec.limit),
{
    let c0 = text_conditions(spec.text);
    let q0 = with_text(with_all(Seq::empty()), text::opt_view(spec.text));
    lemma_text_conditions(spec.text);
    lemma_text_column_texts(c0, q0, spec);
    let c5 = text_column_conditions(c0, spec);
    let q5 = with_all(c5);
    lemma_bpm_text(c5, q5, spec);
    let c7 = also(
        also(c5, "bpm"@, ">="@, bpm_arg(spec.bpm.min)),
        "bpm"@,
        "<="@,
        bpm_arg(spec.bpm.max),
    );
    lemma_year_text(c7, with_all(c7), spec);
}

proof fn lemma_conditions_meaning(spec: QuerySpec, e: model::EntryView, by: Comparing)
    ensures
        passes_all(e, conditions_of(spec), by) == is_asked_for(e, spec, by),
{
    lemma_cells(e);
    let c0 = text_conditions(spec.text);
    if let Some(s) = spec.text {
        let tests = text_tests(Arg::Text("%"@ + s@ + "%"@));
        assert(c0[0] == tests);
        assert(passes_all(e, c0, by) == passes_one(e, tests, by));
        assert(passes_one(e, tests, by) == (passes(e, tests[0], by) || passes(e, tests[1], by)
            || passes(e, tests[2], by) || passes(e, tests[3], by)));
    }
    let c1 = also(c0, "artist"@, "="@, text_arg(spec.artist));
    lemma_also(c0, "artist"@, "="@, text_arg(spec.artist), e, by);
    let c2 = also(c1, "album"@, "="@, text_arg(spec.album));
    lemma_also(c1, "album"@, "="@, text_arg(spec.album), e, by);
    let c3 = also(c2, "genre"@, "="@, text_arg(spec.genre));
    lemma_also(c2, "genre"@, "="@, text_arg(spec.genre), e, by);
    let c4 = also(c3, "key_camelot"@, "="@, text_arg(spec.key));
    lemma_also(c3, "key_camelot"@, "="@, text_arg(spec.key), e, by);
    let c5 = also(c4, "file_type"@, "="@, text_arg(spec.file_type));
    lemma_also(c4, "file_type"@, "="@, text_arg(spec.file_type), e, by);
    let c6 = also(c5, "bpm"@, ">="@, bpm_arg(spec.bpm.min));
    lemma_also(c5, "bpm"@, ">="@, bpm_arg(spec.bpm.min), e, by);
    let c7 = also(c6, "bpm"@, "<="@, bpm_arg(spec.bpm.max));
    lemma_also(c6, "bpm"@, "<="@, bpm_arg(spec.bpm.max), e, by);
    let c8 = also(c7, "year"@, ">="@, year_arg(spec.year.min));
    lemma_also(c7, "year"@, ">="@, year_arg(spec.year.min), e, by);
    lemma_also(c8, "year"@, "<="@, year_arg(spec.year.max), e, by);
}

/// A query finds the tracks that its specification asks for, and no others: those
/// within the bounds for beats and year, both ends included, that have the artist,
/// album, genre, key and file type, and that have the free text in their title,
/// artist, album or comment.
pub proof fn law_query_finds_what_is_asked_for(spec: QuerySpec) -> (conditions: Seq<Seq<Test>>)
    ensures
        asks_for(sql_of(spec), conditions, spec.limit),
        are_met_by_asked_for(conditions, spec),
{
    let conditions = conditions_of(spec);
    lemma_conditions_text(spec);
    assert forall|e: model::EntryView, by: Comparing| #[trigger]
        passes_all(e, conditions, by) == is_asked_for(e, spec, by) by {
        lemma_conditions_meaning(spec, e, by);
    }
    conditions
}

/// A query in the making.
struct SqlBuilder {
    text: String,
    args: Vec<Value>,
}

impl SqlBuilder {
    spec fn sql(self) -> Sql {
        Sql { text: self.text@, args: arg_views(self.args@) }
    }

    /// Adds the place holder of the next argument.
    fn condition(&mut self, condition: &str, arg: Value)
        requires
            old(self).args@.len() < 100,
        ensures
            final(self).sql() == with_condition(old(self).sql(), condition@, arg@),
            final(self).args@.len() == old(self).args@.len() + 1,
    {
        let ghost before = self.sql();
        self.args.push(arg);
        let number = text::decimal_text(self.args.len() as u64);
        let mark = text::cat2("?", number.as_str());
        self.text.append(condition);
        self.text.append(mark.as_str());
        proof {
            assert(arg_views(self.args@) =~= before.args.push(arg@));
            assert(self.text@ =~= before.text + condition@ + holder(before.args.len() + 1));
        }
    }

    fn push_text(&mut self, wanted: &Option<String>)
        requires
            old(self).args@.len() < 90,
        ensures
            final(self).sql() == with_text(old(self).sql(), text::opt_view(*wanted)),
            final(self).args@.len() <= old(self).args@.len() + 4,
    {
        if let Some(s) = wanted {
            let ghost before = self.sql();
            let pattern = like(s.as_str());
            let base: u64 = self.args.len() as u64;
            let a = text::decimal_text(base + 1);
            let b = text::decimal_text(base + 2);
            let c = text::decimal_text(base + 3);
            let d = text::decimal_text(base + 4);
            let first = text::cat3(" AND (title LIKE ", "?", a.as_str());
            let second = text::cat3(" OR artist LIKE ", "?", b.as_str());
            let third = text::cat3(" OR album LIKE ", "?", c.as_str());
            let fourth = text::cat3(" OR comment LIKE ", "?", d.as_str());
            self.text.append(first.as_str());
            self.text.append(second.as_str());
            self.text.append(third.as_str());
            self.text.append(fourth.as_str());
            self.text.append(")");
            self.args.push(Value::Text(pattern.clone()));
            self.args.push(Value::Text(pattern.clone()));
            self.args.push(Value::Text(pattern.clone()));
            self.args.push(Value::Text(pattern));
            proof {
                let n = before.args.len();
                let p = Arg::Text(like_pattern(s@));
                assert(arg_views(self.args@) =~= before.args.push(p).push(p).push(p).push(p));
                assert(first@ =~= " AND (title LIKE "@ + holder(n + 1));
                assert(second@ =~= " OR artist LIKE "@ + holder(n + 2));
                assert(third@ =~= " OR album LIKE "@ + holder(n + 3));
                assert(fourth@ =~= " OR comment LIKE "@ + holder(n + 4));
            }
        }
    }

    fn push_eq(&mut self, column: &str, wanted: &Option<String>)
        requires
            old(self).args@.len() < 100,
        ensures
            final(self).sql() == with_eq(old(self).sql(), column@, text::opt_view(*wanted)),
            final(self).args@.len() <= old(self).args@.len() + 1,
    {
        if let Some(s) = wanted {
            let condition = text::cat3(" AND ", column, " = ");
            self.condition(condition.as_str(), Value::Text(s.clone()));
        }
    }

    fn push_bpm(&mut self, condition: &str, bound: Option<u32>)
        requires
            old(self).args@.len() < 100,
        ensures
            final(self).sql() == with_bpm(old(self).sql(), condition@, bound),
            final(self).args@.len() <= old(self).args@.len() + 1,
    {
        if let Some(b) = bound {
            self.condition(condition, Value::Real(b));
        }
    }

    fn push_year(&mut self, condition: &str, bound: Option<i32>)
        requires
            old(self).args@.len() < 100,
        ensures
            final(self).sql() == with_year(old(self).sql(), condition@, bound),
            final(self).args@.len() <= old(self).args@.len() + 1,
    {
        if let Some(y) = bound {
            self.condition(condition, Value::Integer(y as i64));
        }
    }
}

/// The pattern that finds a text anywhere.
fn like(s: &str) -> (r: String)
    ensures
        r@ == like_pattern(s@),
{
    text::cat3("%", s, "%")
}

/// Puts a specification as a query: its text, and its arguments in the order of
/// their place holders. Tags are filtered afterwards.
pub fn compile_query(spec: &QuerySpec) -> (r: (String, Vec<Value>))
    ensures
        r.0@ == sql_of(*spec).text,
        arg_views(r.1@) == sql_of(*spec).args,
        exists|conditions: Seq<Seq<Test>>|
            {
                &&& #[trigger] asks_for(
                    Sql { text: r.0@, args: arg_views(r.1@) },
                    conditions,
                    spec.limit,
                )
                &&& are_met_by_asked_for(conditions, *spec)
            },
{
    let mut q = SqlBuilder {
        text: text::cat3("SELECT ", COLUMNS, " FROM tracks WHERE 1=1"),
        args: Vec::new(),
    };
    proof {
        assert(arg_views(q.args@) =~= Seq::<Arg>::empty());
    }
    q.push_text(&spec.text);
    q.push_eq("artist", &spec.artist);
    q.push_eq("album", &spec.album);
    q.push_eq("genre", &spec.genre);
    q.push_eq("key_camelot", &spec.key);
    q.push_eq("file_type", &spec.file_type);
    q.push_bpm(" AND bpm >= ", spec.bpm.min);
    q.push_bpm(" AND bpm <= ", spec.bpm.max);
    q.push_year(" AND year >= ", spec.year.min);
    q.push_year(" AND year <= ", spec.year.max);
    let ghost base = q.text@ + " ORDER BY artist, album, title"@;
    let mut sql = q.text;
    sql.append(" ORDER BY artist, album, title");
    if let Some(n) = spec.limit {
        let number = text::decimal_text(n as u64);
        let tail = text::cat2(" LIMIT ", number.as_str());
        sql.append(tail.as_str());
    } else {
        proof {
            assert(base + Seq::<char>::empty() =~= base);
        }
    }
    proof {
        let conditions = law_query_finds_what_is_asked_for(*spec);
        let made = Sql { text: sql@, args: arg_views(q.args@) };
        assert(made == sql_of(*spec));
        assert(asks_for(made, conditions, spec.limit));
    }
    (sql, q.args)
}

/// Whether an entry has all the given tags.
pub open spec fn has_tags(e: model::EntryView, tags: Seq<Seq<char>>) -> bool {
    forall|i: int| 0 <= i < tags.len() ==> e.tags.contains(#[trigger] tags[i])
}

/// The entries that have all the given tags, in order.
pub open spec fn tagged(entries: Seq<model::EntryView>, tags: Seq<Seq<char>>) -> Seq<
    model::EntryView,
>
    decreases entries.len(),
{
    if entries.len() == 0 {
        Seq::empty()
    } else {
        let front = tagged(entries.drop_last(), tags);
        if has_tags(entries.last(), tags) {
            front.push(entries.last())
        } else {
            front
        }
    }
}

/// Whether an entry has all the given tags.
fn entry_has_tags(e: &ArchiveEntry, tags: &Vec<String>) -> (r: bool)
    ensures
        r == has_tags(e@, text::views(tags@)),
{
    let mut i: usize = 0;
    while i < tags.len()
        invariant
            i <= tags@.len(),
            forall|k: int| 0 <= k < i ==> e@.tags.contains(#[trigger] text::views(tags@)[k]),
        decreases tags@.len() - i,
    {
        if !text::contains_text(&e.tags, tags[i].as_str()) {
            proof {
                assert(!e@.tags.contains(text::views(tags@)[i as int]));
            }
            return false;
        }
        i = i + 1;
    }
    true
}

/// The entries that have all the given tags, in order.
pub fn filter_by_tags(entries: Vec<ArchiveEntry>, tags: &Vec<String>) -> (r: Vec<ArchiveEntry>)
    ensures
        model::entry_views(r@) == tagged(model::entry_views(entries@), text::views(tags@)),
{
    let ghost all = model::entry_views(entries@);
    let mut r: Vec<ArchiveEntry> = Vec::new();
    let mut i: usize = 0;
    proof {
        assert(all.take(0) =~= Seq::<model::EntryView>::empty());
        assert(model::entry_views(r@) =~= Seq::<model::EntryView>::empty());
    }
    while i < entries.len()
        invariant
            i <= entries@.len(),
            all == model::entry_views(entries@),
            model::entry_views(r@) == tagged(all.take(i as int), text::views(tags@)),
        decreases entries@.len() - i,
    {
        proof {
            assert(all.take(i + 1).drop_last() =~= all.take(i as int));
            assert(all.take(i + 1).last() == entries@[i as int]@);
        }
        let ghost before = model::entry_views(r@);
        if entry_has_tags(&entries[i], tags) {
            let e = entries[i].copy();
            let ghost v = e@;
            r.push(e);
            proof {
                assert(model::entry_views(r@) =~= before.push(v));
            }
        }
        i = i + 1;
    }
    proof {
        assert(all.take(entries@.len() as int) =~= all);
    }
    r
}

/// Which entries have every one of the given tags.
pub open spec fn bears_tags(entries: Seq<model::EntryView>, tags: Seq<Seq<char>>) -> spec_fn(
    int,
) -> bool {
    |i: int|
        forall|k: int| 0 <= k < tags.len() ==> entries[i].tags.contains(#[trigger] tags[k])
}

/// A filter by tags keeps the entries that have every one of them, and no others,
/// each once, in order.
pub proof fn law_tag_filter_keeps_what_bears_all_tags(
    entries: Seq<model::EntryView>,
    tags: Seq<Seq<char>>,
)
    ensures
        selection::is_selection(
            tagged(entries, tags),
            entries.len() as int,
            bears_tags(entries, tags),
            |i: int| entries[i],
        ),
    decreases entries.len(),
{
    let keep = bears_tags(entries, tags);
    let item = |i: int| entries[i];
    if entries.len() == 0 {
        selection::lemma_selection_empty(keep, item);
    } else {
        let front = entries.drop_last();
        law_tag_filter_keeps_what_bears_all_tags(front, tags);
        selection::lemma_selection_grows(
            tagged(front, tags),
            front.len() as int,
            bears_tags(front, tags),
            |i: int| front[i],
            tagged(entries, tags),
            keep,
            item,
        );
    }
}

/// Without tags nothing is filtered out.
pub proof fn law_no_tags_no_filter(entries: Seq<model::EntryView>)
    ensures
        tagged(entries, Seq::empty()) == entries,
    decreases entries.len(),
{
    if entries.len() > 0 {
        law_no_tags_no_filter(entries.drop_last());
        assert(entries.drop_last().push(entries.last()) =~= entries);
    } else {
        assert(tagged(entries, Seq::empty()) =~= entries);
    }
}

/// Every argument that a query takes is one that it was given: the arguments
/// are as many as the conditions of the specification ask for.
pub proof fn law_query_arguments_match_filters(spec: QuerySpec)
    ensures
        sql_of(spec).args.len() == (if spec.text is Some {
            4int
        } else {
            0
        }) + (if spec.artist is Some {
            1int
        } else {
            0
        }) + (if spec.album is Some {
            1int
        } else {
            0
        }) + (if spec.genre is Some {
            1int
        } else {
            0
        }) + (if spec.key is Some {
            1int
        } else {
            0
        }) + (if spec.file_type is Some {
            1int
        } else {
            0
        }) + (if spec.bpm.min is Some {
            1int
        } else {
            0
        }) + (if spec.bpm.max is Some {
            1int
        } else {
            0
        }) + (if spec.year.min is Some {
            1int
        } else {
            0
        }) + (if spec.year.max is Some {
            1int
        } else {
            0
        }),
{
}

// ---------------------------------------------------------------------------
// Rows
// ---------------------------------------------------------------------------

/// A list of texts as JSON.
pub uninterp spec fn texts_json(list: Seq<Seq<char>>) -> Seq<char>;

/// The list of texts that JSON stands for, or the reason why it stands for
/// none.
pub uninterp spec fn json_texts(s: Seq<char>) -> Result<Seq<Seq<char>>, Seq<char>>;

/// Writes a list of texts as JSON.
///
/// Trusted: `serde_json::to_string` on a list of strings. It succeeds: it fails
/// only on values that refuse to be written and on maps whose keys are no
/// strings. The text depends on the list alone, and reading it gives the list
/// back.
#[verifier::external_body]
fn texts_to_json(list: &Vec<String>) -> (r: Result<String, String>)
    ensures
        r is Ok,
        r matches Ok(s) ==> s@ == texts_json(text::views(list@)),
        r matches Ok(s) ==> (json_texts(s@) matches Ok(l) && l == text::views(list@)),
{
    serde_json::to_string(list).map_err(|e| e.to_string())
}

/// Reads a list of texts from JSON.
///
/// Trusted: `serde_json::from_str` into a list of strings. The list, or the
/// text of the error, depends on the text alone.
#[verifier::external_body]
fn texts_from_json(s: &str) -> (r: Result<Vec<String>, String>)
    ensures
        match r {
            Ok(list) => json_texts(s@) matches Ok(l) && l == text::views(list@),
            Err(why) => json_texts(s@) matches Err(m) && m == why@,
        },
{
    serde_json::from_str::<Vec<String>>(s).map_err(|e| e.to_string())
}

/// A track, as the database holds it.
#[derive(Debug, Clone, PartialEq, Eq)]
pub struct TrackRow {
    pub track_id: String,
    pub object_key: String,
    pub size_bytes: i64,
    pub sha256: String,
    pub metadata: Metadata,
    pub tags: String,
    pub imported_at: String,
    pub updated_at: String,
    pub source_path_original: Option<String>,
    pub artwork_object_key: Option<String>,
    pub library_relative_path: Option<String>,
}

/// Whether an entry is what a row holds, read at the time `now`.
pub open spec fn is_entry_of(e: model::EntryView, row: TrackRow, now: Timestamp) -> bool {
    &&& e.track_id == row.track_id@
    &&& e.object_key == row.object_key@
    &&& e.size_bytes == row.size_bytes as u64
    &&& e.sha256 == row.sha256@
    &&& e.metadata == row.metadata
    &&& json_texts(row.tags@) matches Ok(tags) && tags == e.tags
    &&& is_moment_of(e.imported_at, row.imported_at@, now)
    &&& is_moment_of(e.updated_at, row.updated_at@, now)
    &&& e.source_path_original == text::opt_view(row.source_path_original)
    &&& e.artwork_object_key == text::opt_view(row.artwork_object_key)
    &&& e.library_relative_path == text::opt_view(row.library_relative_path)
}

/// Whether a moment is what stored text stands for.
pub open spec fn is_moment_of(t: Timestamp, s: Seq<char>, now: Timestamp) -> bool {
    match time::rfc3339_reading(s) {
        Ok(m) => (t.secs, t.nanos) == m,
        Err(_) => t == now,
    }
}

/// Reads a track. Fails exactly if its tags cannot be read.
pub fn row_to_entry(row: TrackRow, now: Timestamp) -> (r: Result<ArchiveEntry, Error>)
    ensures
        match r {
            Ok(e) => is_entry_of(e@, row, now),
            Err(e) => e matches Error::Serde(m) && (json_texts(row.tags@) matches Err(why) && m@
                == why),
        },
{
    let tags = match texts_from_json(row.tags.as_str()) {
        Ok(tags) => tags,
        Err(m) => {
            return Err(Error::Serde(m));
        },
    };
    Ok(
        ArchiveEntry {
            track_id: TrackId(row.track_id),
            object_key: row.object_key,
            size_bytes: row.size_bytes as u64,
            sha256: row.sha256,
            metadata: row.metadata,
            tags,
            imported_at: time::parse_dt(row.imported_at.as_str(), now),
            updated_at: time::parse_dt(row.updated_at.as_str(), now),
            source_path_original: row.source_path_original,
            artwork_object_key: row.artwork_object_key,
            library_relative_path: row.library_relative_path,
        },
    )
}

/// The stored text of a time, if the calendar reaches it.
pub open spec fn moment_text(t: Timestamp) -> Option<Seq<char>> {
    time::rfc3339_text(t.secs, t.nanos)
}

/// Writes a track.
///
/// Fails exactly if the calendar does not reach one of the times. Where both
/// lie in the years 0 to 9999, the row reads back as the track.
pub fn entry_to_row(e: &ArchiveEntry) -> (r: Result<TrackRow, Error>)
    ensures
        match (moment_text(e@.imported_at), moment_text(e@.updated_at)) {
            (Some(imported_at), Some(updated_at)) => r matches Ok(row) && {
                &&& row.track_id@ == e@.track_id
                &&& row.object_key@ == e@.object_key
                &&& row.size_bytes == e@.size_bytes as i64
                &&& row.sha256@ == e@.sha256
                &&& row.metadata == e@.metadata
                &&& row.tags@ == texts_json(e@.tags)
                &&& row.imported_at@ == imported_at
                &&& row.updated_at@ == updated_at
                &&& text::opt_view(row.source_path_original) == e@.source_path_original
                &&& text::opt_view(row.artwork_object_key) == e@.artwork_object_key
                &&& text::opt_view(row.library_relative_path) == e@.library_relative_path
            },
            (Some(_), None) => r matches Err(Error::Other(m)) && m@ == "update time out of range"@,
            (None, _) => r matches Err(Error::Other(m)) && m@ == "import time out of range"@,
        },
        time::is_common(e@.imported_at) && time::is_common(e@.updated_at) ==> (r matches Ok(row)
            && forall|now: Timestamp| #[trigger] is_entry_of(e@, row, now)),
{
    let tags = match texts_to_json(&e.tags) {
        Ok(s) => s,
        Err(m) => {
            return Err(Error::Serde(m));
        },
    };
    let imported_at = match time::format_ts(e.imported_at) {
        Some(s) => s,
        None => {
            return Err(Error::Other("import time out of range".to_owned()));
        },
    };
    let updated_at = match time::format_ts(e.updated_at) {
        Some(s) => s,
        None => {
            return Err(Error::Other("update time out of range".to_owned()));
        },
    };
    let size: u64 = e.size_bytes;
    proof {
        assert((size as i64) as u64 == size) by (bit_vector);
    }
    Ok(
        TrackRow {
            track_id: e.track_id.0.clone(),
            object_key: e.object_key.clone(),
            size_bytes: size as i64,
            sha256: e.sha256.clone(),
            metadata: e.metadata.copy(),
            tags,
            imported_at,
            updated_at,
            source_path_original: text::copy_opt(&e.source_path_original),
            artwork_object_key: text::copy_opt(&e.artwork_object_key),
            library_relative_path: text::copy_opt(&e.library_relative_path),
        },
    )
}

/// A row stands for one entry only: whatever was written, one thing is read
/// back.
pub proof fn law_row_stands_for_one_entry(
    a: model::EntryView,
    b: model::EntryView,
    row: TrackRow,
    now: Timestamp,
)
    requires
        is_entry_of(a, row, now),
        is_entry_of(b, row, now),
    ensures
        a == b,
{
}

} // verus!
