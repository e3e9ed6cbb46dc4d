//! The persisted builder-config document.
//!
//! A [`crate::builder::Builder`] is persisted as a structured text document:
//! a `description` entry, a `[stack]` section, one `[[buildpacks]]` section
//! per buildpack and one `[[order]]` / `[[order.group]]` section pair per
//! detection group, each section holding `key = "value"` and `key = bool`
//! entries, one per line.  String values are written between double quotes
//! with the quote, backslash and the three common control characters
//! escaped.  The document is defined twice over: [`builder_doc`] renders a
//! builder to text, and [`parse_builder_doc`] gives the text its meaning;
//! [`lemma_builder_doc_round_trip`] proves that parsing an emitted document
//! yields the builder back, minus the deliberately unpersisted
//! compatible-stack lists.  `Builder::to_document` and
//! `Builder::parse_document` are the executable faces of the two
//! definitions.

use vstd::prelude::*;

use crate::text::starts_with_s;

verus! {

/// How one character is written inside a quoted string value.
pub open spec fn escape_char(c: char) -> Seq<char> {
    if c == '"' {
        seq!['\\', '"']
    } else if c == '\\' {
        seq!['\\', '\\']
    } else if c == '\n' {
        seq!['\\', 'n']
    } else if c == '\r' {
        seq!['\\', 'r']
    } else if c == '\t' {
        seq!['\\', 't']
    } else {
        seq![c]
    }
}

/// How a string value is written inside quotes.
pub open spec fn escape(s: Seq<char>) -> Seq<char>
    decreases s.len(),
{
    if s.len() == 0 {
        Seq::empty()
    } else {
        escape_char(s[0]) + escape(s.drop_first())
    }
}

/// The character an escape sequence `\x` stands for, if `x` is a valid
/// escape.
pub open spec fn unescape_char(c: char) -> Option<char> {
    if c == '"' {
        Some('"')
    } else if c == '\\' {
        Some('\\')
    } else if c == 'n' {
        Some('\n')
    } else if c == 'r' {
        Some('\r')
    } else if c == 't' {
        Some('\t')
    } else {
        None
    }
}

/// The string a quoted value stands for, if every escape in it is valid.
pub open spec fn unescape(s: Seq<char>) -> Option<Seq<char>>
    decreases s.len(),
{
    if s.len() == 0 {
        Some(Seq::empty())
    } else if s[0] == '\\' {
        if s.len() < 2 {
            None
        } else {
            match unescape_char(s[1]) {
                Some(c) => match unescape(s.skip(2)) {
                    Some(rest) => Some(seq![c] + rest),
                    None => None,
                },
                None => None,
            }
        }
    } else {
        match unescape(s.drop_first()) {
            Some(rest) => Some(seq![s[0]] + rest),
            None => None,
        }
    }
}

/// Escaping distributes over concatenation.
pub proof fn lemma_escape_concat(a: Seq<char>, b: Seq<char>)
    ensures
        escape(a + b) == escape(a) + escape(b),
    decreases a.len(),
{
    if a.len() == 0 {
        assert(a + b =~= b);
        assert(escape(a) + escape(b) =~= escape(b));
    } else {
        assert((a + b).drop_first() =~= a.drop_first() + b);
        assert((a + b)[0] == a[0]);
        lemma_escape_concat(a.drop_first(), b);
        assert(escape(a + b) =~= escape(a) + escape(b));
    }
}

/// Unescaping inverts escaping.
pub proof fn lemma_unescape_escape(s: Seq<char>)
    ensures
        unescape(escape(s)) == Some(s),
    decreases s.len(),
{
    if s.len() == 0 {
    } else {
        let c = s[0];
        let rest = s.drop_first();
        lemma_unescape_escape(rest);
        assert(escape(s) == escape_char(c) + escape(rest));
        let e = escape(s);
        if c == '"' || c == '\\' || c == '\n' || c == '\r' || c == '\t' {
            assert(escape_char(c).len() == 2);
            assert(e[0] == '\\');
            assert(e.len() >= 2);
            assert(e[1] == escape_char(c)[1]);
            assert(unescape_char(e[1]) == Some(c));
            assert(e.skip(2) =~= escape(rest));
            assert(seq![c] + rest =~= s);
        } else {
            assert(e[0] == c);
            assert(c != '\\');
            assert(e.drop_first() =~= escape(rest));
            assert(seq![c] + rest =~= s);
        }
    }
}

/// An escaped value contains no newline, so it stays on its line.
pub proof fn lemma_escape_no_newline(s: Seq<char>)
    ensures
        forall|i: int| 0 <= i < escape(s).len() ==> escape(s)[i] != '\n',
    decreases s.len(),
{
    if s.len() > 0 {
        lemma_escape_no_newline(s.drop_first());
        assert(escape(s) == escape_char(s[0]) + escape(s.drop_first()));
        assert(forall|i: int| 0 <= i < escape_char(s[0]).len() ==> escape_char(s[0])[i] != '\n');
    }
}

/// One `key = "value"` entry line.
pub open spec fn str_entry(key: Seq<char>, v: Seq<char>) -> Seq<char> {
    key + seq![' ', '=', ' ', '"'] + escape(v) + seq!['"']
}

/// One `key = true` / `key = false` entry line.
pub open spec fn bool_entry(key: Seq<char>, b: bool) -> Seq<char> {
    key + seq![' ', '=', ' '] + if b {
        "true"@
    } else {
        "false"@
    }
}

/// The value of a `key = "value"` line, if the line has that shape.
pub open spec fn parse_str_entry(line: Seq<char>, key: Seq<char>) -> Option<Seq<char>> {
    let pre = key + seq![' ', '=', ' ', '"'];
    if starts_with_s(line, pre) && line.len() > pre.len() && line.last() == '"' {
        unescape(line.subrange(pre.len() as int, line.len() - 1))
    } else {
        None
    }
}

/// The value of a `key = bool` line, if the line has that shape.
pub open spec fn parse_bool_entry(line: Seq<char>, key: Seq<char>) -> Option<bool> {
    if line == bool_entry(key, true) {
        Some(true)
    } else if line == bool_entry(key, false) {
        Some(false)
    } else {
        None
    }
}

/// Parsing a rendered string entry gives the value back.
pub proof fn lemma_parse_str_entry_round(key: Seq<char>, v: Seq<char>)
    ensures
        parse_str_entry(str_entry(key, v), key) == Some(v),
{
    let pre = key + seq![' ', '=', ' ', '"'];
    let line = str_entry(key, v);
    assert(line =~= pre + escape(v) + seq!['"']);
    assert(line.take(pre.len() as int) =~= pre);
    assert(line.len() == pre.len() + escape(v).len() + 1);
    assert(line.last() == '"');
    assert(line.subrange(pre.len() as int, line.len() - 1) =~= escape(v));
    lemma_unescape_escape(v);
}

/// A line whose first character differs from the key's is no string entry.
pub proof fn lemma_parse_str_entry_miss(line: Seq<char>, key: Seq<char>)
    requires
        key.len() > 0,
        line.len() == 0 || line[0] != key[0],
    ensures
        parse_str_entry(line, key) is None,
{
    let pre = key + seq![' ', '=', ' ', '"'];
    assert(pre[0] == key[0]);
    if line.len() > 0 && starts_with_s(line, pre) {
        assert(line.take(pre.len() as int)[0] == line[0]);
    }
}

/// A line whose first character differs from the key's is no bool entry.
pub proof fn lemma_parse_bool_entry_miss(line: Seq<char>, key: Seq<char>)
    requires
        key.len() > 0,
        line.len() == 0 || line[0] != key[0],
    ensures
        parse_bool_entry(line, key) is None,
{
    assert(bool_entry(key, true)[0] == key[0]);
    assert(bool_entry(key, false)[0] == key[0]);
    assert(bool_entry(key, true).len() > 0);
}

/// Whether `s` contains no newline.
pub open spec fn newline_free(s: Seq<char>) -> bool {
    forall|i: int| 0 <= i < s.len() ==> s[i] != '\n'
}

/// The document text of a line sequence: each line followed by a newline.
pub open spec fn render_lines(lines: Seq<Seq<char>>) -> Seq<char>
    decreases lines.len(),
{
    if lines.len() == 0 {
        Seq::empty()
    } else {
        lines[0] + seq!['\n'] + render_lines(lines.drop_first())
    }
}

/// The lines of a document text: the chunks between newlines, with a final
/// unterminated chunk kept.
pub open spec fn split_lines_s(s: Seq<char>) -> Seq<Seq<char>>
    decreases s.len(),
{
    if s.len() == 0 {
        Seq::empty()
    } else {
        match crate::text::index_of_first(s, '\n') {
            Some(i) => if 0 <= i < s.len() {
                seq![s.take(i)] + split_lines_s(s.skip(i + 1))
            } else {
                seq![s]
            },
            None => seq![s],
        }
    }
}

/// Rendering distributes over concatenation of line sequences.
pub proof fn lemma_render_concat(a: Seq<Seq<char>>, b: Seq<Seq<char>>)
    ensures
        render_lines(a + b) == render_lines(a) + render_lines(b),
    decreases a.len(),
{
    if a.len() == 0 {
        assert(a + b =~= b);
        assert(render_lines(a) + render_lines(b) =~= render_lines(b));
    } else {
        assert((a + b).drop_first() =~= a.drop_first() + b);
        assert((a + b)[0] == a[0]);
        lemma_render_concat(a.drop_first(), b);
        assert(render_lines(a + b) =~= render_lines(a) + render_lines(b));
    }
}

/// In `line + '\n' + rest`, the first newline closes `line`, when `line`
/// itself has none.
proof fn lemma_first_newline_of_line(line: Seq<char>, rest: Seq<char>)
    requires
        newline_free(line),
    ensures
        crate::text::index_of_first(line + seq!['\n'] + rest, '\n') == Some(line.len() as int),
{
    let s = line + seq!['\n'] + rest;
    assert(s[line.len() as int] == '\n');
    assert(forall|j: int| 0 <= j < line.len() ==> s[j] == line[j]);
    crate::text::lemma_index_of_first(s, '\n');
    crate::text::lemma_first_occurrence_is_index_of_first(s, '\n', line.len() as int);
}

/// Splitting a rendered document gives the lines back, when no line holds a
/// newline.
pub proof fn lemma_split_render(lines: Seq<Seq<char>>)
    requires
        forall|i: int| 0 <= i < lines.len() ==> newline_free(#[trigger] lines[i]),
    ensures
        split_lines_s(render_lines(lines)) == lines,
    decreases lines.len(),
{
    if lines.len() == 0 {
    } else {
        let line = lines[0];
        let rest = render_lines(lines.drop_first());
        let s = line + seq!['\n'] + rest;
        assert(render_lines(lines) =~= s);
        assert(s.len() > 0);
        lemma_first_newline_of_line(line, rest);
        assert(s.take(line.len() as int) =~= line);
        assert(s.skip(line.len() as int + 1) =~= rest);
        assert(forall|i: int|
            0 <= i < lines.drop_first().len() ==> newline_free(
                #[trigger] lines.drop_first()[i],
            ));
        lemma_split_render(lines.drop_first());
        assert(split_lines_s(render_lines(lines)) =~= lines);
    }
}

/// The `[stack]` section header.
pub open spec fn stack_header() -> Seq<char> {
    "[stack]"@
}

/// The `[[buildpacks]]` section header.
pub open spec fn bp_header() -> Seq<char> {
    "[[buildpacks]]"@
}

/// The `[[order]]` section header.
pub open spec fn order_header() -> Seq<char> {
    "[[order]]"@
}

/// The `[[order.group]]` section header.
pub open spec fn group_header() -> Seq<char> {
    "[[order.group]]"@
}

/// The lines of an optional string entry: one line when set, none when not.
pub open spec fn opt_str_lines(key: Seq<char>, o: Option<Seq<char>>) -> Seq<Seq<char>> {
    match o {
        Some(v) => seq![str_entry(key, v)],
        None => Seq::empty(),
    }
}

/// The lines of an optional bool entry: one line when set, none when not.
pub open spec fn opt_bool_lines(key: Seq<char>, o: Option<bool>) -> Seq<Seq<char>> {
    match o {
        Some(b) => seq![bool_entry(key, b)],
        None => Seq::empty(),
    }
}

/// The `[stack]` section: header and the three image entries.
pub open spec fn stack_lines(st: crate::stack::StackView) -> Seq<Seq<char>> {
    seq![
        stack_header(),
        str_entry("id"@, st.id),
        str_entry("build-image"@, st.build_image),
        str_entry("run-image"@, st.run_image),
    ]
}

/// One `[[buildpacks]]` section.  The compatible-stack list is deliberately
/// not persisted: it is registry state, not configuration.
pub open spec fn buildpack_lines(bp: crate::buildpack::BuildpackView) -> Seq<Seq<char>> {
    seq![bp_header(), str_entry("uri"@, bp.uri)] + opt_str_lines("version"@, bp.version)
        + opt_bool_lines("optional"@, bp.optional)
}

/// The `[[buildpacks]]` sections, in list order.
pub open spec fn buildpacks_lines(bps: Seq<crate::buildpack::BuildpackView>) -> Seq<Seq<char>>
    decreases bps.len(),
{
    if bps.len() == 0 {
        Seq::empty()
    } else {
        buildpack_lines(bps[0]) + buildpacks_lines(bps.drop_first())
    }
}

/// One `[[order.group]]` section.
pub open spec fn group_lines(g: crate::builder::GroupView) -> Seq<Seq<char>> {
    seq![group_header()] + opt_str_lines("id"@, g.id) + opt_bool_lines("optional"@, g.optional)
}

/// The `[[order.group]]` sections of one order entry.
pub open spec fn groups_lines(gs: Seq<crate::builder::GroupView>) -> Seq<Seq<char>>
    decreases gs.len(),
{
    if gs.len() == 0 {
        Seq::empty()
    } else {
        group_lines(gs[0]) + groups_lines(gs.drop_first())
    }
}

/// One `[[order]]` section with its groups.
pub open spec fn order_lines(o: crate::builder::OrderView) -> Seq<Seq<char>> {
    seq![order_header()] + groups_lines(o.group)
}

/// The `[[order]]` sections, in list order.
pub open spec fn orders_lines(os: Seq<crate::builder::OrderView>) -> Seq<Seq<char>>
    decreases os.len(),
{
    if os.len() == 0 {
        Seq::empty()
    } else {
        order_lines(os[0]) + orders_lines(os.drop_first())
    }
}

/// Every line of the persisted document for `b`.
pub open spec fn builder_lines(b: crate::builder::BuilderView) -> Seq<Seq<char>> {
    opt_str_lines("description"@, b.description) + stack_lines(b.stack) + buildpacks_lines(
        b.buildpacks,
    ) + orders_lines(b.order)
}

/// The persisted document text for `b`.
pub open spec fn builder_doc(b: crate::builder::BuilderView) -> Seq<char> {
    render_lines(builder_lines(b))
}

/// A buildpack as it comes back from the document: its compatible-stack
/// list is not persisted.
pub open spec fn persisted_buildpack(
    bp: crate::buildpack::BuildpackView,
) -> crate::buildpack::BuildpackView {
    crate::buildpack::BuildpackView { compatible_stacks: None, ..bp }
}

/// The buildpack list as it comes back from the document.
pub open spec fn persisted_buildpacks(bps: Seq<crate::buildpack::BuildpackView>) -> Seq<
    crate::buildpack::BuildpackView,
>
    decreases bps.len(),
{
    if bps.len() == 0 {
        Seq::empty()
    } else {
        seq![persisted_buildpack(bps[0])] + persisted_buildpacks(bps.drop_first())
    }
}

/// A builder as it comes back from its document.
pub open spec fn persisted_builder(b: crate::builder::BuilderView) -> crate::builder::BuilderView {
    crate::builder::BuilderView { buildpacks: persisted_buildpacks(b.buildpacks), ..b }
}

/// An optional leading entry: consumed when the first line has the entry's
/// shape, left alone when not.
pub open spec fn parse_opt_str(lines: Seq<Seq<char>>, key: Seq<char>) -> (Option<Seq<char>>, Seq<
    Seq<char>,
>) {
    if lines.len() > 0 && parse_str_entry(lines[0], key) is Some {
        (parse_str_entry(lines[0], key), lines.drop_first())
    } else {
        (None, lines)
    }
}

/// An optional leading bool entry.
pub open spec fn parse_opt_bool(lines: Seq<Seq<char>>, key: Seq<char>) -> (Option<bool>, Seq<
    Seq<char>,
>) {
    if lines.len() > 0 && parse_bool_entry(lines[0], key) is Some {
        (parse_bool_entry(lines[0], key), lines.drop_first())
    } else {
        (None, lines)
    }
}

/// The `[stack]` section: exactly the header and three image entries.
pub open spec fn parse_stack(lines: Seq<Seq<char>>) -> Option<(crate::stack::StackView, Seq<
    Seq<char>,
>)> {
    if lines.len() >= 4 && lines[0] == stack_header() {
        match (parse_str_entry(lines[1], "id"@), parse_str_entry(lines[2], "build-image"@),
        parse_str_entry(lines[3], "run-image"@)) {
            (Some(id), Some(build_image), Some(run_image)) => Some(
                (crate::stack::StackView { id, build_image, run_image }, lines.skip(4)),
            ),
            _ => None,
        }
    } else {
        None
    }
}

/// One `[[buildpacks]]` section: the header, the uri entry, then optional
/// version and optional entries.
pub open spec fn parse_one_buildpack(lines: Seq<Seq<char>>) -> Option<(
    crate::buildpack::BuildpackView,
    Seq<Seq<char>>,
)> {
    if lines.len() >= 2 && lines[0] == bp_header() {
        match parse_str_entry(lines[1], "uri"@) {
            Some(uri) => {
                let (version, rest1) = parse_opt_str(lines.skip(2), "version"@);
                let (optional, rest2) = parse_opt_bool(rest1, "optional"@);
                Some(
                    (
                        crate::buildpack::BuildpackView {
                            uri,
                            version,
                            optional,
                            compatible_stacks: None,
                        },
                        rest2,
                    ),
                )
            },
            None => None,
        }
    } else {
        None
    }
}

/// The `[[buildpacks]]` sections, as many as stand at the front.
pub open spec fn parse_buildpacks(lines: Seq<Seq<char>>) -> Option<(
    Seq<crate::buildpack::BuildpackView>,
    Seq<Seq<char>>,
)>
    decreases lines.len(),
{
    if lines.len() > 0 && lines[0] == bp_header() {
        match parse_one_buildpack(lines) {
            Some((bp, rest)) => if rest.len() < lines.len() {
                match parse_buildpacks(rest) {
                    Some((bps, rem)) => Some((seq![bp] + bps, rem)),
                    None => None,
                }
            } else {
                None
            },
            None => None,
        }
    } else {
        Some((Seq::empty(), lines))
    }
}

/// One `[[order.group]]` section: the header, then optional id and
/// optional entries.
pub open spec fn parse_one_group(lines: Seq<Seq<char>>) -> Option<(crate::builder::GroupView, Seq<
    Seq<char>,
>)> {
    if lines.len() > 0 && lines[0] == group_header() {
        let (id, rest1) = parse_opt_str(lines.drop_first(), "id"@);
        let (optional, rest2) = parse_opt_bool(rest1, "optional"@);
        Some((crate::builder::GroupView { id, optional }, rest2))
    } else {
        None
    }
}

/// The `[[order.group]]` sections at the front, as many as stand there.
pub open spec fn parse_groups(lines: Seq<Seq<char>>) -> (Seq<crate::builder::GroupView>, Seq<
    Seq<char>,
>)
    decreases lines.len(),
{
    match parse_one_group(lines) {
        Some((g, rest)) => if rest.len() < lines.len() {
            let (gs, rem) = parse_groups(rest);
            (seq![g] + gs, rem)
        } else {
            (seq![g], rest)
        },
        None => (Seq::empty(), lines),
    }
}

/// One `[[order]]` section with its groups.
pub open spec fn parse_one_order(lines: Seq<Seq<char>>) -> Option<(crate::builder::OrderView, Seq<
    Seq<char>,
>)> {
    if lines.len() > 0 && lines[0] == order_header() {
        let (gs, rest) = parse_groups(lines.drop_first());
        Some((crate::builder::OrderView { group: gs }, rest))
    } else {
        None
    }
}

/// The `[[order]]` sections at the front, as many as stand there.
pub open spec fn parse_orders(lines: Seq<Seq<char>>) -> (Seq<crate::builder::OrderView>, Seq<
    Seq<char>,
>)
    decreases lines.len(),
{
    match parse_one_order(lines) {
        Some((o, rest)) => if rest.len() < lines.len() {
            let (os, rem) = parse_orders(rest);
            (seq![o] + os, rem)
        } else {
            (seq![o], rest)
        },
        None => (Seq::empty(), lines),
    }
}

/// The meaning of a line sequence as a builder document: an optional
/// description, the stack section, the buildpack sections, the order
/// sections, and nothing else.
pub open spec fn parse_builder_lines(lines: Seq<Seq<char>>) -> Option<
    crate::builder::BuilderView,
> {
    let (description, rest0) = parse_opt_str(lines, "description"@);
    match parse_stack(rest0) {
        Some((stack, rest1)) => match parse_buildpacks(rest1) {
            Some((buildpacks, rest2)) => {
                let (order, rest3) = parse_orders(rest2);
                if rest3.len() == 0 {
                    Some(crate::builder::BuilderView { description, stack, buildpacks, order })
                } else {
                    None
                }
            },
            None => None,
        },
        None => None,
    }
}

/// The meaning of a document text as a builder.
pub open spec fn parse_builder_doc(text: Seq<char>) -> Option<crate::builder::BuilderView> {
    parse_builder_lines(split_lines_s(text))
}

/// Whether the line sequence is empty or opens with a section header; no
/// optional entry may be consumed from such a front.
pub open spec fn starts_bracketed(lines: Seq<Seq<char>>) -> bool {
    lines.len() == 0 || (lines[0].len() > 0 && lines[0][0] == '[')
}

/// The concrete characters of the four section headers.
proof fn lemma_header_facts()
    ensures
        stack_header() =~= seq!['[', 's', 't', 'a', 'c', 'k', ']'],
        bp_header() =~= seq![
            '[',
            '[',
            'b',
            'u',
            'i',
            'l',
            'd',
            'p',
            'a',
            'c',
            'k',
            's',
            ']',
            ']',
        ],
        order_header() =~= seq!['[', '[', 'o', 'r', 'd', 'e', 'r', ']', ']'],
        group_header() =~= seq![
            '[',
            '[',
            'o',
            'r',
            'd',
            'e',
            'r',
            '.',
            'g',
            'r',
            'o',
            'u',
            'p',
            ']',
            ']',
        ],
{
    reveal_strlit("[stack]");
    reveal_strlit("[[buildpacks]]");
    reveal_strlit("[[order]]");
    reveal_strlit("[[order.group]]");
}

/// The concrete characters of the entry keys and bool tokens.
proof fn lemma_key_facts()
    ensures
        "description"@ =~= seq!['d', 'e', 's', 'c', 'r', 'i', 'p', 't', 'i', 'o', 'n'],
        "id"@ =~= seq!['i', 'd'],
        "build-image"@ =~= seq!['b', 'u', 'i', 'l', 'd', '-', 'i', 'm', 'a', 'g', 'e'],
        "run-image"@ =~= seq!['r', 'u', 'n', '-', 'i', 'm', 'a', 'g', 'e'],
        "uri"@ =~= seq!['u', 'r', 'i'],
        "version"@ =~= seq!['v', 'e', 'r', 's', 'i', 'o', 'n'],
        "optional"@ =~= seq!['o', 'p', 't', 'i', 'o', 'n', 'a', 'l'],
        "true"@ =~= seq!['t', 'r', 'u', 'e'],
        "false"@ =~= seq!['f', 'a', 'l', 's', 'e'],
{
    reveal_strlit("description");
    reveal_strlit("id");
    reveal_strlit("build-image");
    reveal_strlit("run-image");
    reveal_strlit("uri");
    reveal_strlit("version");
    reveal_strlit("optional");
    reveal_strlit("true");
    reveal_strlit("false");
}

/// A string entry line holds no newline when its key holds none.
proof fn lemma_str_entry_nf(key: Seq<char>, v: Seq<char>)
    requires
        newline_free(key),
    ensures
        newline_free(str_entry(key, v)),
        str_entry(key, v).len() > key.len(),
        str_entry(key, v)[0] == if key.len() > 0 {
            key[0]
        } else {
            ' '
        },
{
    lemma_escape_no_newline(v);
}

/// A bool entry line holds no newline when its key holds none.
proof fn lemma_bool_entry_nf(key: Seq<char>, b: bool)
    requires
        newline_free(key),
    ensures
        newline_free(bool_entry(key, b)),
        bool_entry(key, b).len() > key.len(),
        bool_entry(key, b)[0] == if key.len() > 0 {
            key[0]
        } else {
            ' '
        },
{
    lemma_key_facts();
}

/// Whether every line of `lines` is newline-free.
pub open spec fn lines_newline_free(lines: Seq<Seq<char>>) -> bool {
    forall|i: int| 0 <= i < lines.len() ==> newline_free(#[trigger] lines[i])
}

/// Newline-freedom of line sequences survives concatenation.
proof fn lemma_lines_nf_concat(a: Seq<Seq<char>>, b: Seq<Seq<char>>)
    requires
        lines_newline_free(a),
        lines_newline_free(b),
    ensures
        lines_newline_free(a + b),
{
    assert forall|i: int| 0 <= i < (a + b).len() implies newline_free(#[trigger] (a + b)[i]) by {
        if i < a.len() {
            assert((a + b)[i] == a[i]);
        } else {
            assert((a + b)[i] == b[i - a.len()]);
        }
    }
}

/// No line of a buildpack section holds a newline.
proof fn lemma_buildpack_lines_nf(bp: crate::buildpack::BuildpackView)
    ensures
        lines_newline_free(buildpack_lines(bp)),
{
    lemma_header_facts();
    lemma_key_facts();
    lemma_str_entry_nf("uri"@, bp.uri);
    if bp.version is Some {
        lemma_str_entry_nf("version"@, bp.version->0);
    }
    if bp.optional is Some {
        lemma_bool_entry_nf("optional"@, bp.optional->0);
    }
}

/// No line of the buildpack sections holds a newline.
proof fn lemma_buildpacks_lines_nf(bps: Seq<crate::buildpack::BuildpackView>)
    ensures
        lines_newline_free(buildpacks_lines(bps)),
    decreases bps.len(),
{
    if bps.len() > 0 {
        lemma_buildpack_lines_nf(bps[0]);
        lemma_buildpacks_lines_nf(bps.drop_first());
        lemma_lines_nf_concat(buildpack_lines(bps[0]), buildpacks_lines(bps.drop_first()));
    }
}

/// No line of a group section holds a newline.
proof fn lemma_group_lines_nf(g: crate::builder::GroupView)
    ensures
        lines_newline_free(group_lines(g)),
{
    lemma_header_facts();
    lemma_key_facts();
    if g.id is Some {
        lemma_str_entry_nf("id"@, g.id->0);
    }
    if g.optional is Some {
        lemma_bool_entry_nf("optional"@, g.optional->0);
    }
}

/// No line of the group sections holds a newline.
proof fn lemma_groups_lines_nf(gs: Seq<crate::builder::GroupView>)
    ensures
        lines_newline_free(groups_lines(gs)),
    decreases gs.len(),
{
    if gs.len() > 0 {
        lemma_group_lines_nf(gs[0]);
        lemma_groups_lines_nf(gs.drop_first());
        lemma_lines_nf_concat(group_lines(gs[0]), groups_lines(gs.drop_first()));
    }
}

/// No line of the order sections holds a newline.
proof fn lemma_orders_lines_nf(os: Seq<crate::builder::OrderView>)
    ensures
        lines_newline_free(orders_lines(os)),
    decreases os.len(),
{
    lemma_header_facts();
    if os.len() > 0 {
        lemma_groups_lines_nf(os[0].group);
        lemma_lines_nf_concat(seq![order_header()], groups_lines(os[0].group));
        lemma_orders_lines_nf(os.drop_first());
        lemma_lines_nf_concat(order_lines(os[0]), orders_lines(os.drop_first()));
    }
}

/// No line of a builder's document holds a newline.
proof fn lemma_builder_lines_nf(b: crate::builder::BuilderView)
    ensures
        lines_newline_free(builder_lines(b)),
{
    lemma_header_facts();
    lemma_key_facts();
    if b.description is Some {
        lemma_str_entry_nf("description"@, b.description->0);
    }
    lemma_str_entry_nf("id"@, b.stack.id);
    lemma_str_entry_nf("build-image"@, b.stack.build_image);
    lemma_str_entry_nf("run-image"@, b.stack.run_image);
    lemma_buildpacks_lines_nf(b.buildpacks);
    lemma_orders_lines_nf(b.order);
    lemma_lines_nf_concat(opt_str_lines("description"@, b.description), stack_lines(b.stack));
    lemma_lines_nf_concat(
        opt_str_lines("description"@, b.description) + stack_lines(b.stack),
        buildpacks_lines(b.buildpacks),
    );
    lemma_lines_nf_concat(
        opt_str_lines("description"@, b.description) + stack_lines(b.stack) + buildpacks_lines(
            b.buildpacks,
        ),
        orders_lines(b.order),
    );
}

/// Consuming an optional entry that is present.
proof fn lemma_parse_opt_str_hit(key: Seq<char>, v: Seq<char>, rest: Seq<Seq<char>>)
    ensures
        parse_opt_str(seq![str_entry(key, v)] + rest, key) == (Some(v), rest),
{
    let lines = seq![str_entry(key, v)] + rest;
    assert(lines[0] == str_entry(key, v));
    lemma_parse_str_entry_round(key, v);
    assert(lines.drop_first() =~= rest);
}

/// Passing over an optional entry that is absent: the front opens with a
/// header (or nothing), which no entry line can be.
proof fn lemma_parse_opt_str_bracket_miss(key: Seq<char>, lines: Seq<Seq<char>>)
    requires
        key.len() > 0,
        key[0] != '[',
        starts_bracketed(lines),
    ensures
        parse_opt_str(lines, key) == (None::<Seq<char>>, lines),
{
    if lines.len() > 0 {
        lemma_parse_str_entry_miss(lines[0], key);
    }
}

/// Consuming an optional bool entry that is present.
proof fn lemma_parse_opt_bool_hit(key: Seq<char>, b: bool, rest: Seq<Seq<char>>)
    requires
        key.len() > 0,
    ensures
        parse_opt_bool(seq![bool_entry(key, b)] + rest, key) == (Some(b), rest),
{
    let lines = seq![bool_entry(key, b)] + rest;
    assert(lines[0] == bool_entry(key, b));
    lemma_key_facts();
    assert(bool_entry(key, true) != bool_entry(key, false)) by {
        assert(bool_entry(key, true).len() == key.len() + 7);
        assert(bool_entry(key, false).len() == key.len() + 8);
    }
    assert(lines.drop_first() =~= rest);
}

/// Passing over an optional bool entry that is absent.
proof fn lemma_parse_opt_bool_bracket_miss(key: Seq<char>, lines: Seq<Seq<char>>)
    requires
        key.len() > 0,
        key[0] != '[',
        starts_bracketed(lines),
    ensures
        parse_opt_bool(lines, key) == (None::<bool>, lines),
{
    if lines.len() > 0 {
        lemma_parse_bool_entry_miss(lines[0], key);
    }
}

/// Parsing an emitted stack section gives the stack back.
proof fn lemma_parse_stack_round(st: crate::stack::StackView, rest: Seq<Seq<char>>)
    ensures
        parse_stack(stack_lines(st) + rest) == Some((st, rest)),
{
    let lines = stack_lines(st) + rest;
    assert(lines[0] == stack_header());
    assert(lines[1] == str_entry("id"@, st.id));
    assert(lines[2] == str_entry("build-image"@, st.build_image));
    assert(lines[3] == str_entry("run-image"@, st.run_image));
    lemma_parse_str_entry_round("id"@, st.id);
    lemma_parse_str_entry_round("build-image"@, st.build_image);
    lemma_parse_str_entry_round("run-image"@, st.run_image);
    assert(lines.skip(4) =~= rest);
}

/// Parsing an emitted buildpack section gives the buildpack back, minus its
/// compatible-stack list.
proof fn lemma_parse_one_buildpack_round(
    bp: crate::buildpack::BuildpackView,
    rest: Seq<Seq<char>>,
)
    requires
        starts_bracketed(rest),
    ensures
        parse_one_buildpack(buildpack_lines(bp) + rest) == Some((persisted_buildpack(bp), rest)),
{
    lemma_key_facts();
    let lines = buildpack_lines(bp) + rest;
    let vlines = opt_str_lines("version"@, bp.version);
    let olines = opt_bool_lines("optional"@, bp.optional);
    assert(lines[0] == bp_header());
    assert(lines[1] == str_entry("uri"@, bp.uri));
    assert(lines.len() >= 2);
    lemma_parse_str_entry_round("uri"@, bp.uri);
    assert(lines.skip(2) =~= vlines + (olines + rest));
    match bp.version {
        Some(v) => {
            assert(vlines + (olines + rest) =~= seq![str_entry("version"@, v)] + (olines + rest));
            lemma_parse_opt_str_hit("version"@, v, olines + rest);
        },
        None => {
            assert(vlines + (olines + rest) =~= olines + rest);
            match bp.optional {
                Some(ob) => {
                    assert((olines + rest)[0] == bool_entry("optional"@, ob));
                    lemma_bool_entry_nf("optional"@, ob);
                    lemma_parse_str_entry_miss((olines + rest)[0], "version"@);
                },
                None => {
                    assert(olines + rest =~= rest);
                    lemma_parse_opt_str_bracket_miss("version"@, rest);
                },
            }
        },
    }
    match bp.optional {
        Some(ob) => {
            assert(olines + rest =~= seq![bool_entry("optional"@, ob)] + rest);
            lemma_parse_opt_bool_hit("optional"@, ob, rest);
        },
        None => {
            assert(olines + rest =~= rest);
            lemma_parse_opt_bool_bracket_miss("optional"@, rest);
        },
    }
}

/// Parsing emitted buildpack sections gives the buildpacks back, minus
/// their compatible-stack lists.
proof fn lemma_parse_buildpacks_round(
    bps: Seq<crate::buildpack::BuildpackView>,
    rest: Seq<Seq<char>>,
)
    requires
        starts_bracketed(rest),
        rest.len() > 0 ==> rest[0] != bp_header(),
    ensures
        parse_buildpacks(buildpacks_lines(bps) + rest) == Some((persisted_buildpacks(bps), rest)),
    decreases bps.len(),
{
    lemma_header_facts();
    if bps.len() == 0 {
        assert(buildpacks_lines(bps) + rest =~= rest);
    } else {
        let tail = buildpacks_lines(bps.drop_first()) + rest;
        let lines = buildpacks_lines(bps) + rest;
        assert(lines =~= buildpack_lines(bps[0]) + tail);
        assert(lines[0] == bp_header());
        if bps.drop_first().len() > 0 {
            assert(tail[0] == bp_header());
        }
        lemma_parse_one_buildpack_round(bps[0], tail);
        assert(buildpack_lines(bps[0]).len() >= 2);
        assert(tail.len() < lines.len());
        lemma_parse_buildpacks_round(bps.drop_first(), rest);
        assert(seq![persisted_buildpack(bps[0])] + persisted_buildpacks(bps.drop_first())
            == persisted_buildpacks(bps));
    }
}

/// Parsing an emitted group section gives the group back.
proof fn lemma_parse_one_group_round(g: crate::builder::GroupView, rest: Seq<Seq<char>>)
    requires
        starts_bracketed(rest),
    ensures
        parse_one_group(group_lines(g) + rest) == Some((g, rest)),
{
    lemma_key_facts();
    let lines = group_lines(g) + rest;
    let ilines = opt_str_lines("id"@, g.id);
    let olines = opt_bool_lines("optional"@, g.optional);
    assert(lines[0] == group_header());
    assert(lines.drop_first() =~= ilines + (olines + rest));
    match g.id {
        Some(v) => {
            assert(ilines + (olines + rest) =~= seq![str_entry("id"@, v)] + (olines + rest));
            lemma_parse_opt_str_hit("id"@, v, olines + rest);
        },
        None => {
            assert(ilines + (olines + rest) =~= olines + rest);
            match g.optional {
                Some(ob) => {
                    assert((olines + rest)[0] == bool_entry("optional"@, ob));
                    lemma_bool_entry_nf("optional"@, ob);
                    lemma_parse_str_entry_miss((olines + rest)[0], "id"@);
                },
                None => {
                    assert(olines + rest =~= rest);
                    lemma_parse_opt_str_bracket_miss("id"@, rest);
                },
            }
        },
    }
    match g.optional {
        Some(ob) => {
            assert(olines + rest =~= seq![bool_entry("optional"@, ob)] + rest);
            lemma_parse_opt_bool_hit("optional"@, ob, rest);
        },
        None => {
            assert(olines + rest =~= rest);
            lemma_parse_opt_bool_bracket_miss("optional"@, rest);
        },
    }
}

/// Parsing emitted group sections gives the groups back.
proof fn lemma_parse_groups_round(gs: Seq<crate::builder::GroupView>, rest: Seq<Seq<char>>)
    requires
        starts_bracketed(rest),
        rest.len() > 0 ==> rest[0] != group_header(),
    ensures
        parse_groups(groups_lines(gs) + rest) == (gs, rest),
    decreases gs.len(),
{
    lemma_header_facts();
    if gs.len() == 0 {
        assert(groups_lines(gs) + rest =~= rest);
        if rest.len() > 0 {
            assert(parse_one_group(rest) is None);
        }
    } else {
        let tail = groups_lines(gs.drop_first()) + rest;
        let lines = groups_lines(gs) + rest;
        assert(lines =~= group_lines(gs[0]) + tail);
        assert(lines[0] == group_header());
        if gs.drop_first().len() > 0 {
            assert(tail[0] == group_header());
        }
        lemma_parse_one_group_round(gs[0], tail);
        assert(group_lines(gs[0]).len() >= 1);
        assert(tail.len() < lines.len());
        lemma_parse_groups_round(gs.drop_first(), rest);
        assert(seq![gs[0]] + gs.drop_first() =~= gs);
    }
}

/// Parsing an emitted order section gives the order back.
proof fn lemma_parse_one_order_round(o: crate::builder::OrderView, rest: Seq<Seq<char>>)
    requires
        starts_bracketed(rest),
        rest.len() > 0 ==> rest[0] != group_header(),
    ensures
        parse_one_order(order_lines(o) + rest) == Some((o, rest)),
{
    lemma_header_facts();
    let lines = order_lines(o) + rest;
    assert(lines[0] == order_header());
    assert(lines.drop_first() =~= groups_lines(o.group) + rest);
    lemma_parse_groups_round(o.group, rest);
}

/// Parsing emitted order sections gives the orders back.
proof fn lemma_parse_orders_round(os: Seq<crate::builder::OrderView>, rest: Seq<Seq<char>>)
    requires
        starts_bracketed(rest),
        rest.len() > 0 ==> rest[0] != order_header() && rest[0] != group_header(),
    ensures
        parse_orders(orders_lines(os) + rest) == (os, rest),
    decreases os.len(),
{
    lemma_header_facts();
    if os.len() == 0 {
        assert(orders_lines(os) + rest =~= rest);
        if rest.len() > 0 {
            assert(parse_one_order(rest) is None);
        }
    } else {
        let tail = orders_lines(os.drop_first()) + rest;
        let lines = orders_lines(os) + rest;
        assert(lines =~= order_lines(os[0]) + tail);
        assert(lines[0] == order_header());
        if os.drop_first().len() > 0 {
            assert(tail[0] == order_header());
        }
        lemma_parse_one_order_round(os[0], tail);
        assert(order_lines(os[0]).len() >= 1);
        assert(tail.len() < lines.len());
        lemma_parse_orders_round(os.drop_first(), rest);
        assert(seq![os[0]] + os.drop_first() =~= os);
    }
}

/// The persisted-document round trip: parsing the document emitted for a
/// builder yields that builder back, except that the buildpacks'
/// compatible-stack lists — registry state, deliberately not persisted —
/// come back unset.
pub proof fn lemma_builder_doc_round_trip(b: crate::builder::BuilderView)
    ensures
        parse_builder_doc(builder_doc(b)) == Some(persisted_builder(b)),
{
    lemma_header_facts();
    lemma_key_facts();
    lemma_builder_lines_nf(b);
    lemma_split_render(builder_lines(b));
    let lines = builder_lines(b);
    let dlines = opt_str_lines("description"@, b.description);
    let rest0 = stack_lines(b.stack) + buildpacks_lines(b.buildpacks) + orders_lines(b.order);
    assert(lines =~= dlines + rest0);
    match b.description {
        Some(d) => {
            assert(dlines + rest0 =~= seq![str_entry("description"@, d)] + rest0);
            lemma_parse_opt_str_hit("description"@, d, rest0);
        },
        None => {
            assert(dlines + rest0 =~= rest0);
            assert(rest0[0] == stack_header());
            lemma_parse_opt_str_bracket_miss("description"@, rest0);
        },
    }
    let rest1 = buildpacks_lines(b.buildpacks) + orders_lines(b.order);
    assert(rest0 =~= stack_lines(b.stack) + rest1);
    lemma_parse_stack_round(b.stack, rest1);
    let rest2 = orders_lines(b.order);
    assert(rest1 =~= buildpacks_lines(b.buildpacks) + rest2);
    if rest2.len() > 0 {
        assert(rest2[0] == order_header());
    }
    lemma_parse_buildpacks_round(b.buildpacks, rest2);
    assert(rest2 =~= orders_lines(b.order) + Seq::<Seq<char>>::empty());
    lemma_parse_orders_round(b.order, Seq::empty());
}

/// Buildpack sections of a concatenated list are the concatenated sections.
proof fn lemma_buildpacks_lines_concat(
    a: Seq<crate::buildpack::BuildpackView>,
    b: Seq<crate::buildpack::BuildpackView>,
)
    ensures
        buildpacks_lines(a + b) == buildpacks_lines(a) + buildpacks_lines(b),
    decreases a.len(),
{
    if a.len() == 0 {
        assert(a + b =~= b);
        assert(buildpacks_lines(a) + buildpacks_lines(b) =~= buildpacks_lines(b));
    } else {
        assert((a + b).drop_first() =~= a.drop_first() + b);
        assert((a + b)[0] == a[0]);
        lemma_buildpacks_lines_concat(a.drop_first(), b);
        assert(buildpacks_lines(a + b) =~= buildpacks_lines(a) + buildpacks_lines(b));
    }
}

/// Group sections of a concatenated list are the concatenated sections.
proof fn lemma_groups_lines_concat(
    a: Seq<crate::builder::GroupView>,
    b: Seq<crate::builder::GroupView>,
)
    ensures
        groups_lines(a + b) == groups_lines(a) + groups_lines(b),
    decreases a.len(),
{
    if a.len() == 0 {
        assert(a + b =~= b);
        assert(groups_lines(a) + groups_lines(b) =~= groups_lines(b));
    } else {
        assert((a + b).drop_first() =~= a.drop_first() + b);
        assert((a + b)[0] == a[0]);
        lemma_groups_lines_concat(a.drop_first(), b);
        assert(groups_lines(a + b) =~= groups_lines(a) + groups_lines(b));
    }
}

/// Order sections of a concatenated list are the concatenated sections.
proof fn lemma_orders_lines_concat(
    a: Seq<crate::builder::OrderView>,
    b: Seq<crate::builder::OrderView>,
)
    ensures
        orders_lines(a + b) == orders_lines(a) + orders_lines(b),
    decreases a.len(),
{
    if a.len() == 0 {
        assert(a + b =~= b);
        assert(orders_lines(a) + orders_lines(b) =~= orders_lines(b));
    } else {
        assert((a + b).drop_first() =~= a.drop_first() + b);
        assert((a + b)[0] == a[0]);
        lemma_orders_lines_concat(a.drop_first(), b);
        assert(orders_lines(a + b) =~= orders_lines(a) + orders_lines(b));
    }
}

/// Appends the escaped form of `v`.
fn push_escaped(out: &mut String, v: &str)
    ensures
        final(out)@ == old(out)@ + escape(v@),
{
    let len = v.unicode_len();
    let mut i: usize = 0;
    proof {
        assert(v@.take(0) =~= Seq::<char>::empty());
        assert(old(out)@ + escape(v@.take(0)) =~= old(out)@);
    }
    while i < len
        invariant
            len == v@.len(),
            i <= len,
            out@ == old(out)@ + escape(v@.take(i as int)),
        decreases len - i,
    {
        let c = v.get_char(i);
        if c == '"' {
            out.append("\\\"");
            proof {
                reveal_strlit("\\\"");
                assert("\\\""@ =~= escape_char(c));
            }
        } else if c == '\\' {
            out.append("\\\\");
            proof {
                reveal_strlit("\\\\");
                assert("\\\\"@ =~= escape_char(c));
            }
        } else if c == '\n' {
            out.append("\\n");
            proof {
                reveal_strlit("\\n");
                assert("\\n"@ =~= escape_char(c));
            }
        } else if c == '\r' {
            out.append("\\r");
            proof {
                reveal_strlit("\\r");
                assert("\\r"@ =~= escape_char(c));
            }
        } else if c == '\t' {
            out.append("\\t");
            proof {
                reveal_strlit("\\t");
                assert("\\t"@ =~= escape_char(c));
            }
        } else {
            let piece = v.substring_char(i, i + 1);
            proof {
                assert(piece@ =~= seq![v@[i as int]]);
                assert(piece@ =~= escape_char(c));
            }
            out.append(piece);
        }
        proof {
            assert(v@.take(i + 1) =~= v@.take(i as int) + seq![v@[i as int]]);
            lemma_escape_concat(v@.take(i as int), seq![v@[i as int]]);
            lemma_escape_singleton(v@[i as int]);
            assert(out@ =~= old(out)@ + escape(v@.take(i + 1)));
        }
        i = i + 1;
    }
    proof {
        assert(v@.take(len as int) =~= v@);
    }
}

/// Appends one `key = "value"` line.
fn push_str_entry(out: &mut String, key: &str, v: &str)
    ensures
        final(out)@ == old(out)@ + str_entry(key@, v@) + seq!['\n'],
{
    out.append(key);
    out.append(" = \"");
    push_escaped(out, v);
    out.append("\"\n");
    proof {
        reveal_strlit(" = \"");
        reveal_strlit("\"\n");
        assert(" = \""@ =~= seq![' ', '=', ' ', '"']);
        assert("\"\n"@ =~= seq!['"', '\n']);
        assert(out@ =~= old(out)@ + str_entry(key@, v@) + seq!['\n']);
    }
}

/// Appends one `key = bool` line.
fn push_bool_entry(out: &mut String, key: &str, b: bool)
    ensures
        final(out)@ == old(out)@ + bool_entry(key@, b) + seq!['\n'],
{
    out.append(key);
    out.append(" = ");
    if b {
        out.append("true");
    } else {
        out.append("false");
    }
    out.append("\n");
    proof {
        reveal_strlit(" = ");
        reveal_strlit("\n");
        assert(" = "@ =~= seq![' ', '=', ' ']);
        assert("\n"@ =~= seq!['\n']);
        assert(out@ =~= old(out)@ + bool_entry(key@, b) + seq!['\n']);
    }
}

/// Appends one section-header line.
fn push_header(out: &mut String, h: &str)
    ensures
        final(out)@ == old(out)@ + h@ + seq!['\n'],
{
    out.append(h);
    out.append("\n");
    proof {
        reveal_strlit("\n");
        assert(out@ =~= old(out)@ + h@ + seq!['\n']);
    }
}

/// A single rendered line is the line followed by a newline.
proof fn lemma_render_singleton(l: Seq<char>)
    ensures
        render_lines(seq![l]) == l + seq!['\n'],
{
    assert(seq![l].drop_first() =~= Seq::<Seq<char>>::empty());
    assert(render_lines(Seq::<Seq<char>>::empty()) =~= Seq::<char>::empty());
    assert(render_lines(seq![l]) =~= l + seq!['\n']);
}

/// Escaping a single character is that character's escape.
proof fn lemma_escape_singleton(c: char)
    ensures
        escape(seq![c]) == escape_char(c),
{
    assert(seq![c].drop_first() =~= Seq::<char>::empty());
    assert(escape(Seq::<char>::empty()) =~= Seq::<char>::empty());
    assert(escape(seq![c]) =~= escape_char(c));
}

/// The sections of a single buildpack are that buildpack's section.
proof fn lemma_buildpacks_lines_singleton(bp: crate::buildpack::BuildpackView)
    ensures
        buildpacks_lines(seq![bp]) == buildpack_lines(bp),
{
    assert(seq![bp].drop_first() =~= Seq::<crate::buildpack::BuildpackView>::empty());
    assert(buildpacks_lines(Seq::<crate::buildpack::BuildpackView>::empty()) =~= Seq::<
        Seq<char>,
    >::empty());
    assert(buildpacks_lines(seq![bp]) =~= buildpack_lines(bp));
}

/// The sections of a single group are that group's section.
proof fn lemma_groups_lines_singleton(g: crate::builder::GroupView)
    ensures
        groups_lines(seq![g]) == group_lines(g),
{
    assert(seq![g].drop_first() =~= Seq::<crate::builder::GroupView>::empty());
    assert(groups_lines(Seq::<crate::builder::GroupView>::empty()) =~= Seq::<Seq<char>>::empty());
    assert(groups_lines(seq![g]) =~= group_lines(g));
}

/// The sections of a single order are that order's section.
proof fn lemma_orders_lines_singleton(o: crate::builder::OrderView)
    ensures
        orders_lines(seq![o]) == order_lines(o),
{
    assert(seq![o].drop_first() =~= Seq::<crate::builder::OrderView>::empty());
    assert(orders_lines(Seq::<crate::builder::OrderView>::empty()) =~= Seq::<Seq<char>>::empty());
    assert(orders_lines(seq![o]) =~= order_lines(o));
}

/// Undoes the escaping of a quoted value; `None` on a lone trailing
/// backslash or an unknown escape.
fn unescape_exec(s: &str) -> (r: Option<String>)
    ensures
        (match r {
            Some(v) => unescape(s@) == Some(v@),
            None => unescape(s@) is None,
        }),
{
    let len = s.unicode_len();
    let mut out = String::new();
    let mut i: usize = 0;
    proof {
        assert(s@.skip(0) =~= s@);
    }
    while i < len
        invariant
            len == s@.len(),
            i <= len,
            (match unescape(s@.skip(i as int)) {
                Some(rest) => unescape(s@) == Some(out@ + rest),
                None => unescape(s@) is None,
            }),
        decreases len - i,
    {
        let ghost tail = s@.skip(i as int);
        proof {
            assert(tail[0] == s@[i as int]);
        }
        let c = s.get_char(i);
        if c == '\\' {
            if i + 1 >= len {
                proof {
                    assert(tail.len() < 2);
                }
                return None;
            }
            proof {
                assert(tail[1] == s@[i + 1]);
                assert(tail.skip(2) =~= s@.skip(i + 2));
            }
            let e = s.get_char(i + 1);
            if e == '"' {
                out.append("\"");
                proof {
                    reveal_strlit("\"");
                    assert("\""@ =~= seq!['"']);
                }
            } else if e == '\\' {
                out.append("\\");
                proof {
                    reveal_strlit("\\");
                    assert("\\"@ =~= seq!['\\']);
                }
            } else if e == 'n' {
                out.append("\n");
                proof {
                    reveal_strlit("\n");
                    assert("\n"@ =~= seq!['\n']);
                }
            } else if e == 'r' {
                out.append("\r");
                proof {
                    reveal_strlit("\r");
                    assert("\r"@ =~= seq!['\r']);
                }
            } else if e == 't' {
                out.append("\t");
                proof {
                    reveal_strlit("\t");
                    assert("\t"@ =~= seq!['\t']);
                }
            } else {
                proof {
                    assert(unescape_char(tail[1]) is None);
                }
                return None;
            }
            proof {
                let uc = unescape_char(tail[1])->0;
                match unescape(s@.skip(i + 2)) {
                    Some(rest) => {
                        assert(unescape(tail) == Some(seq![uc] + rest));
                        assert(out@ + rest =~= (out@.drop_last() + (seq![uc] + rest)));
                        assert(out@.drop_last() + (seq![uc] + rest) == unescape(s@)->0);
                    },
                    None => {},
                }
            }
            i = i + 2;
        } else {
            let piece = s.substring_char(i, i + 1);
            proof {
                assert(piece@ =~= seq![s@[i as int]]);
                assert(tail.drop_first() =~= s@.skip(i + 1));
            }
            out.append(piece);
            proof {
                match unescape(s@.skip(i + 1)) {
                    Some(rest) => {
                        assert(unescape(tail) == Some(seq![tail[0]] + rest));
                        assert(out@ + rest =~= out@.drop_last() + (seq![tail[0]] + rest));
                    },
                    None => {},
                }
            }
            i = i + 1;
        }
    }
    proof {
        assert(s@.skip(len as int) =~= Seq::<char>::empty());
        assert(unescape(Seq::<char>::empty()) == Some(Seq::<char>::empty()));
        assert(out@ + Seq::<char>::empty() =~= out@);
    }
    Some(out)
}

/// Reads one `key = "value"` line.
fn parse_str_entry_exec(line: &str, key: &str) -> (r: Option<String>)
    ensures
        (match r {
            Some(v) => parse_str_entry(line@, key@) == Some(v@),
            None => parse_str_entry(line@, key@) is None,
        }),
{
    let prefix = String::from_str(key).concat(" = \"");
    proof {
        reveal_strlit(" = \"");
        assert(prefix@ =~= key@ + seq![' ', '=', ' ', '"']);
    }
    if !crate::text::str_starts_with(line, prefix.as_str()) {
        return None;
    }
    let llen = line.unicode_len();
    let plen = prefix.as_str().unicode_len();
    if llen <= plen {
        return None;
    }
    if line.get_char(llen - 1) != '"' {
        proof {
            assert(line@.last() != '"');
        }
        return None;
    }
    let content = line.substring_char(plen, llen - 1);
    proof {
        assert(line@.last() == '"');
        assert(content@ =~= line@.subrange(prefix@.len() as int, line@.len() - 1));
    }
    unescape_exec(content)
}

/// Reads one `key = true` / `key = false` line.
fn parse_bool_entry_exec(line: &str, key: &str) -> (r: Option<bool>)
    ensures
        (match r {
            Some(b) => parse_bool_entry(line@, key@) == Some(b),
            None => parse_bool_entry(line@, key@) is None,
        }),
{
    let yes = String::from_str(key).concat(" = true");
    let no = String::from_str(key).concat(" = false");
    proof {
        reveal_strlit(" = true");
        reveal_strlit(" = false");
        lemma_key_facts();
        assert(yes@ =~= bool_entry(key@, true));
        assert(no@ =~= bool_entry(key@, false));
    }
    if crate::text::str_eq(line, yes.as_str()) {
        Some(true)
    } else if crate::text::str_eq(line, no.as_str()) {
        Some(false)
    } else {
        None
    }
}

/// Cuts a document text into its lines.
fn split_lines_exec(s: &str) -> (r: Vec<String>)
    ensures
        r.deep_view() == split_lines_s(s@),
{
    let len = s.unicode_len();
    let mut out: Vec<String> = Vec::new();
    let mut start: usize = 0;
    let mut i: usize = 0;
    proof {
        assert(s@.skip(0) =~= s@);
        assert(out.deep_view() + split_lines_s(s@) =~= split_lines_s(s@));
    }
    while i < len
        invariant
            len == s@.len(),
            start <= i <= len,
            forall|j: int| start <= j < i ==> s@[j] != '\n',
            out.deep_view() + split_lines_s(s@.skip(start as int)) == split_lines_s(s@),
        decreases len - i,
    {
        if s.get_char(i) == '\n' {
            let line = String::from_str(s.substring_char(start, i));
            let ghost tail = s@.skip(start as int);
            proof {
                assert(line@ =~= tail.take(i - start));
                assert(forall|j: int| 0 <= j < i - start ==> tail[j] == s@[start + j]);
                assert(tail[i - start] == s@[i as int]);
                crate::text::lemma_first_occurrence_is_index_of_first(tail, '\n', i - start);
                assert(tail.skip(i - start + 1) =~= s@.skip(i + 1));
            }
            let ghost prev_dv = out.deep_view();
            let ghost lv = line@;
            out.push(line);
            proof {
                assert(out@.len() == prev_dv.len() + 1);
                assert(out.deep_view().len() == out@.len());
                assert(out.deep_view()[prev_dv.len() as int] == lv);
                assert(forall|j: int|
                    0 <= j < prev_dv.len() ==> out.deep_view()[j] == out@[j].deep_view()
                        && out@[j].deep_view() == prev_dv[j]);
                assert(split_lines_s(tail) == seq![lv] + split_lines_s(s@.skip(i + 1)));
                assert(out.deep_view() + split_lines_s(s@.skip(i + 1)) =~= prev_dv + split_lines_s(
                    tail,
                ));
            }
            start = i + 1;
        }
        i = i + 1;
    }
    if start < len {
        let line = String::from_str(s.substring_char(start, len));
        let ghost tail = s@.skip(start as int);
        proof {
            assert(line@ =~= tail);
            assert(forall|j: int| 0 <= j < tail.len() ==> tail[j] == s@[start + j]);
            crate::text::lemma_index_of_first(tail, '\n');
            match crate::text::index_of_first(tail, '\n') {
                Some(k) => {
                    assert(tail[k] == '\n');
                    assert(false);
                },
                None => {},
            }
            assert(split_lines_s(tail) =~= seq![tail]);
        }
        let ghost prev_dv = out.deep_view();
        let ghost lv = line@;
        out.push(line);
        proof {
            assert(out@.len() == prev_dv.len() + 1);
            assert(out.deep_view().len() == out@.len());
            assert(out.deep_view()[prev_dv.len() as int] == lv);
            assert(forall|j: int|
                0 <= j < prev_dv.len() ==> out.deep_view()[j] == out@[j].deep_view()
                    && out@[j].deep_view() == prev_dv[j]);
            assert(out.deep_view() =~= prev_dv + seq![tail]);
        }
    } else {
        proof {
            assert(s@.skip(start as int) =~= Seq::<char>::empty());
            assert(split_lines_s(Seq::<char>::empty()) =~= Seq::<Seq<char>>::empty());
            assert(out.deep_view() + split_lines_s(s@.skip(start as int)) =~= out.deep_view());
        }
    }
    out
}

/// Consumes an optional leading string entry at `i`.
fn parse_opt_str_at(lines: &Vec<String>, i: usize, key: &str) -> (r: (Option<String>, usize))
    requires
        i <= lines@.len(),
    ensures
        i <= r.1 <= lines@.len(),
        ({
            let (vo, rest) = parse_opt_str(lines.deep_view().skip(i as int), key@);
            vo == r.0.deep_view() && rest == lines.deep_view().skip(r.1 as int)
        }),
{
    let ghost dv = lines.deep_view();
    if i < lines.len() {
        proof {
            assert(dv[i as int] == lines@[i as int]@);
            assert(dv.skip(i as int)[0] == dv[i as int]);
        }
        match parse_str_entry_exec(lines[i].as_str(), key) {
            Some(v) => {
                proof {
                    assert(dv.skip(i as int).drop_first() =~= dv.skip(i + 1));
                }
                (Some(v), i + 1)
            },
            None => (None, i),
        }
    } else {
        proof {
            assert(dv.skip(i as int).len() == 0);
        }
        (None, i)
    }
}

/// Consumes an optional leading bool entry at `i`.
fn parse_opt_bool_at(lines: &Vec<String>, i: usize, key: &str) -> (r: (Option<bool>, usize))
    requires
        i <= lines@.len(),
    ensures
        i <= r.1 <= lines@.len(),
        ({
            let (vo, rest) = parse_opt_bool(lines.deep_view().skip(i as int), key@);
            vo == r.0 && rest == lines.deep_view().skip(r.1 as int)
        }),
{
    let ghost dv = lines.deep_view();
    if i < lines.len() {
        proof {
            assert(dv[i as int] == lines@[i as int]@);
            assert(dv.skip(i as int)[0] == dv[i as int]);
        }
        match parse_bool_entry_exec(lines[i].as_str(), key) {
            Some(b) => {
                proof {
                    assert(dv.skip(i as int).drop_first() =~= dv.skip(i + 1));
                }
                (Some(b), i + 1)
            },
            None => (None, i),
        }
    } else {
        proof {
            assert(dv.skip(i as int).len() == 0);
        }
        (None, i)
    }
}

/// Reads the `[stack]` section at `i`.
fn parse_stack_at(lines: &Vec<String>, i: usize) -> (r: (Option<crate::stack::Stack>, usize))
    requires
        i <= lines@.len(),
    ensures
        i <= r.1 <= lines@.len(),
        (match parse_stack(lines.deep_view().skip(i as int)) {
            Some((st, rest)) => r.0 matches Some(stack) && stack@ == st && rest
                == lines.deep_view().skip(r.1 as int),
            None => r.0 is None,
        }),
{
    let ghost dv = lines.deep_view();
    let ghost tail = dv.skip(i as int);
    proof {
        assert(forall|k: int| 0 <= k < tail.len() ==> tail[k] == dv[i + k]);
        assert(forall|k: int|
            i <= k < lines@.len() ==> dv[k] == #[trigger] lines@[k].deep_view());
    }
    if lines.len() - i < 4 {
        return (None, i);
    }
    if !crate::text::str_eq(lines[i].as_str(), "[stack]") {
        return (None, i);
    }
    let id = match parse_str_entry_exec(lines[i + 1].as_str(), "id") {
        Some(v) => v,
        None => {
            return (None, i);
        },
    };
    let build_image = match parse_str_entry_exec(lines[i + 2].as_str(), "build-image") {
        Some(v) => v,
        None => {
            return (None, i);
        },
    };
    let run_image = match parse_str_entry_exec(lines[i + 3].as_str(), "run-image") {
        Some(v) => v,
        None => {
            return (None, i);
        },
    };
    proof {
        assert(tail.skip(4) =~= dv.skip(i + 4));
    }
    (Some(crate::stack::Stack { id, build_image, run_image }), i + 4)
}

/// Reads the run of `[[buildpacks]]` sections starting at `start`.
fn parse_buildpacks_at(lines: &Vec<String>, start: usize) -> (r: Option<
    (Vec<crate::buildpack::Buildpack>, usize),
>)
    requires
        start <= lines@.len(),
    ensures
        (match parse_buildpacks(lines.deep_view().skip(start as int)) {
            Some((bps, rest)) => r matches Some(p) && p.0.deep_view() == bps && start <= p.1
                <= lines@.len() && rest == lines.deep_view().skip(p.1 as int),
            None => r is None,
        }),
{
    let ghost dv = lines.deep_view();
    let mut out: Vec<crate::buildpack::Buildpack> = Vec::new();
    let mut i: usize = start;
    proof {
        assert(out.deep_view() =~= Seq::<crate::buildpack::BuildpackView>::empty());
    }
    while i < lines.len() && crate::text::str_eq(lines[i].as_str(), "[[buildpacks]]")
        invariant
            start <= i <= lines@.len(),
            dv == lines.deep_view(),
            dv.len() == lines@.len(),
            (match parse_buildpacks(dv.skip(i as int)) {
                Some((bps, rest)) => parse_buildpacks(dv.skip(start as int)) == Some(
                    (out.deep_view() + bps, rest),
                ),
                None => parse_buildpacks(dv.skip(start as int)) is None,
            }),
        decreases lines@.len() - i,
    {
        let ghost tail = dv.skip(i as int);
        proof {
            assert(dv[i as int] == lines@[i as int]@);
            assert(tail[0] == dv[i as int]);
        }
        if i + 1 >= lines.len() {
            proof {
                assert(tail.len() < 2);
                assert(parse_one_buildpack(tail) is None);
            }
            return None;
        }
        proof {
            assert(dv[i + 1] == lines@[i + 1]@);
            assert(tail[1] == dv[i + 1]);
        }
        let uri = match parse_str_entry_exec(lines[i + 1].as_str(), "uri") {
            Some(v) => v,
            None => {
                proof {
                    assert(parse_one_buildpack(tail) is None);
                }
                return None;
            },
        };
        let (version, i2) = parse_opt_str_at(lines, i + 2, "version");
        let (optional, i3) = parse_opt_bool_at(lines, i2, "optional");
        let bp = crate::buildpack::Buildpack {
            uri,
            version,
            optional,
            compatible_stacks: None,
        };
        let ghost bpv = bp@;
        proof {
            assert(tail.skip(2) =~= dv.skip(i + 2));
            assert(parse_one_buildpack(tail) == Some((bpv, dv.skip(i3 as int))));
            assert(dv.skip(i3 as int).len() < tail.len());
        }
        let ghost prev = out@;
        let ghost prev_dv = out.deep_view();
        out.push(bp);
        proof {
            assert(out@.len() == prev.len() + 1);
            assert(prev.len() == prev_dv.len());
            assert(out.deep_view().len() == out@.len());
            assert(out@[prev.len() as int] == bp);
            assert(out.deep_view()[prev.len() as int] == bpv);
            assert(forall|j: int|
                0 <= j < prev.len() ==> out.deep_view()[j] == out@[j].deep_view() && out@[
                    j
                ].deep_view() == prev_dv[j]);
            assert(out.deep_view() =~= prev_dv + seq![bpv]);
            match parse_buildpacks(dv.skip(i3 as int)) {
                Some((bps2, rest2)) => {
                    assert(parse_buildpacks(tail) == Some((seq![bpv] + bps2, rest2)));
                    assert((prev_dv + seq![bpv]) + bps2 =~= prev_dv + (seq![bpv] + bps2));
                },
                None => {
                    assert(parse_buildpacks(tail) is None);
                },
            }
        }
        i = i3;
    }
    proof {
        if i < lines@.len() {
            assert(dv.skip(i as int)[0] == dv[i as int]);
            assert(dv[i as int] == lines@[i as int]@);
            assert(dv.skip(i as int)[0] != bp_header());
        }
        assert(parse_buildpacks(dv.skip(i as int)) == Some(
            (Seq::<crate::buildpack::BuildpackView>::empty(), dv.skip(i as int)),
        ));
        assert(out.deep_view() + Seq::<crate::buildpack::BuildpackView>::empty() =~= out.deep_view());
    }
    Some((out, i))
}

/// Reads the run of `[[order.group]]` sections starting at `start`.
fn parse_groups_at(lines: &Vec<String>, start: usize) -> (r: (Vec<crate::builder::Group>, usize))
    requires
        start <= lines@.len(),
    ensures
        start <= r.1 <= lines@.len(),
        ({
            let (gs, rest) = parse_groups(lines.deep_view().skip(start as int));
            gs == r.0.deep_view() && rest == lines.deep_view().skip(r.1 as int)
        }),
{
    let ghost dv = lines.deep_view();
    let mut out: Vec<crate::builder::Group> = Vec::new();
    let mut i: usize = start;
    proof {
        assert(out.deep_view() =~= Seq::<crate::builder::GroupView>::empty());
    }
    while i < lines.len() && crate::text::str_eq(lines[i].as_str(), "[[order.group]]")
        invariant
            start <= i <= lines@.len(),
            dv == lines.deep_view(),
            dv.len() == lines@.len(),
            ({
                let (gs_all, rest_all) = parse_groups(dv.skip(start as int));
                let (gs_here, rest_here) = parse_groups(dv.skip(i as int));
                gs_all == out.deep_view() + gs_here && rest_all == rest_here
            }),
        decreases lines@.len() - i,
    {
        let ghost tail = dv.skip(i as int);
        proof {
            assert(dv[i as int] == lines@[i as int]@);
            assert(tail[0] == dv[i as int]);
            assert(tail.drop_first() =~= dv.skip(i + 1));
        }
        let (id, i2) = parse_opt_str_at(lines, i + 1, "id");
        let (optional, i3) = parse_opt_bool_at(lines, i2, "optional");
        let g = crate::builder::Group { id, optional };
        let ghost gv = g@;
        proof {
            assert(parse_one_group(tail) == Some((gv, dv.skip(i3 as int))));
            assert(dv.skip(i3 as int).len() < tail.len());
        }
        let ghost prev = out@;
        let ghost prev_dv = out.deep_view();
        out.push(g);
        proof {
            assert(out@.len() == prev.len() + 1);
            assert(prev.len() == prev_dv.len());
            assert(out.deep_view().len() == out@.len());
            assert(out@[prev.len() as int] == g);
            assert(out.deep_view()[prev.len() as int] == gv);
            assert(forall|j: int|
                0 <= j < prev.len() ==> out.deep_view()[j] == out@[j].deep_view() && out@[
                    j
                ].deep_view() == prev_dv[j]);
            assert(out.deep_view() =~= prev_dv + seq![gv]);
            let (gs2, rest2) = parse_groups(dv.skip(i3 as int));
            assert(parse_groups(tail) == (seq![gv] + gs2, rest2));
            assert((prev_dv + seq![gv]) + gs2 =~= prev_dv + (seq![gv] + gs2));
        }
        i = i3;
    }
    proof {
        if i < lines@.len() {
            assert(dv.skip(i as int)[0] == dv[i as int]);
            assert(dv[i as int] == lines@[i as int]@);
            assert(dv.skip(i as int)[0] != group_header());
            assert(parse_one_group(dv.skip(i as int)) is None);
        } else {
            assert(dv.skip(i as int).len() == 0);
        }
        assert(out.deep_view() + Seq::<crate::builder::GroupView>::empty() =~= out.deep_view());
    }
    (out, i)
}

/// Reads the run of `[[order]]` sections starting at `start`.
fn parse_orders_at(lines: &Vec<String>, start: usize) -> (r: (Vec<crate::builder::Order>, usize))
    requires
        start <= lines@.len(),
    ensures
        start <= r.1 <= lines@.len(),
        ({
            let (os, rest) = parse_orders(lines.deep_view().skip(start as int));
            os == r.0.deep_view() && rest == lines.deep_view().skip(r.1 as int)
        }),
{
    let ghost dv = lines.deep_view();
    let mut out: Vec<crate::builder::Order> = Vec::new();
    let mut i: usize = start;
    proof {
        assert(out.deep_view() =~= Seq::<crate::builder::OrderView>::empty());
    }
    while i < lines.len() && crate::text::str_eq(lines[i].as_str(), "[[order]]")
        invariant
            start <= i <= lines@.len(),
            dv == lines.deep_view(),
            dv.len() == lines@.len(),
            ({
                let (os_all, rest_all) = parse_orders(dv.skip(start as int));
                let (os_here, rest_here) = parse_orders(dv.skip(i as int));
                os_all == out.deep_view() + os_here && rest_all == rest_here
            }),
        decreases lines@.len() - i,
    {
        let ghost tail = dv.skip(i as int);
        proof {
            assert(dv[i as int] == lines@[i as int]@);
            assert(tail[0] == dv[i as int]);
            assert(tail.drop_first() =~= dv.skip(i + 1));
        }
        let (group, i2) = parse_groups_at(lines, i + 1);
        let o = crate::builder::Order { group };
        let ghost ov = o@;
        proof {
            assert(parse_one_order(tail) == Some((ov, dv.skip(i2 as int))));
            assert(dv.skip(i2 as int).len() < tail.len());
        }
        let ghost prev = out@;
        let ghost prev_dv = out.deep_view();
        out.push(o);
        proof {
            assert(out@.len() == prev.len() + 1);
            assert(prev.len() == prev_dv.len());
            assert(out.deep_view().len() == out@.len());
            assert(out@[prev.len() as int] == o);
            assert(out.deep_view()[prev.len() as int] == ov);
            assert(forall|j: int|
                0 <= j < prev.len() ==> out.deep_view()[j] == out@[j].deep_view() && out@[
                    j
                ].deep_view() == prev_dv[j]);
            assert(out.deep_view() =~= prev_dv + seq![ov]);
            let (os2, rest2) = parse_orders(dv.skip(i2 as int));
            assert(parse_orders(tail) == (seq![ov] + os2, rest2));
            assert((prev_dv + seq![ov]) + os2 =~= prev_dv + (seq![ov] + os2));
        }
        i = i2;
    }
    proof {
        if i < lines@.len() {
            assert(dv.skip(i as int)[0] == dv[i as int]);
            assert(dv[i as int] == lines@[i as int]@);
            assert(dv.skip(i as int)[0] != order_header());
            assert(parse_one_order(dv.skip(i as int)) is None);
        } else {
            assert(dv.skip(i as int).len() == 0);
        }
        assert(out.deep_view() + Seq::<crate::builder::OrderView>::empty() =~= out.deep_view());
    }
    (out, i)
}

impl crate::builder::Builder {
    /// Reads a builder back from its persisted configuration document.
    pub fn parse_document(doc: &str) -> (r: Option<crate::builder::Builder>)
        ensures
            (match r {
                Some(b) => parse_builder_doc(doc@) == Some(b@),
                None => parse_builder_doc(doc@) is None,
            }),
    {
        let lines = split_lines_exec(doc);
        let ghost dv = lines.deep_view();
        proof {
            assert(dv.skip(0) =~= dv);
        }
        let (description, i0) = parse_opt_str_at(&lines, 0, "description");
        let (stack_opt, i1) = parse_stack_at(&lines, i0);
        let stack = match stack_opt {
            Some(st) => st,
            None => {
                return None;
            },
        };
        let parsed = match parse_buildpacks_at(&lines, i1) {
            Some(p) => p,
            None => {
                return None;
            },
        };
        let (buildpacks, i2) = parsed;
        let (order, i3) = parse_orders_at(&lines, i2);
        if i3 != lines.len() {
            proof {
                assert(dv.skip(i3 as int).len() > 0);
            }
            return None;
        }
        proof {
            assert(dv.skip(i3 as int).len() == 0);
        }
        Some(crate::builder::Builder { description, stack, buildpacks, order })
    }

    /// Renders this builder as its persisted configuration document.
    #[verifier::rlimit(60)]
    pub fn to_document(&self) -> (r: String)
        ensures
            r@ == builder_doc(self@),
    {
        let ghost bv = self@;
        let mut out = String::new();
        match &self.description {
            Some(d) => {
                push_str_entry(&mut out, "description", d.as_str());
            },
            None => {},
        }
        proof {
            match bv.description {
                Some(d) => {
                    lemma_render_singleton(str_entry("description"@, d));
                    assert(out@ =~= render_lines(opt_str_lines("description"@, bv.description)));
                },
                None => {
                    assert(out@ =~= render_lines(opt_str_lines("description"@, bv.description)));
                },
            }
        }
        let ghost base_stack = out@;
        push_header(&mut out, "[stack]");
        push_str_entry(&mut out, "id", self.stack.id.as_str());
        push_str_entry(&mut out, "build-image", self.stack.build_image.as_str());
        push_str_entry(&mut out, "run-image", self.stack.run_image.as_str());
        proof {
            assert(render_lines(stack_lines(bv.stack)) =~= stack_header() + seq!['\n'] + str_entry(
                "id"@,
                bv.stack.id,
            ) + seq!['\n'] + str_entry("build-image"@, bv.stack.build_image) + seq!['\n']
                + str_entry("run-image"@, bv.stack.run_image) + seq!['\n']) by {
                let l0 = stack_header();
                let l1 = str_entry("id"@, bv.stack.id);
                let l2 = str_entry("build-image"@, bv.stack.build_image);
                let l3 = str_entry("run-image"@, bv.stack.run_image);
                assert(stack_lines(bv.stack) =~= seq![l0] + seq![l1] + seq![l2] + seq![l3]);
                lemma_render_concat(seq![l0] + seq![l1] + seq![l2], seq![l3]);
                lemma_render_concat(seq![l0] + seq![l1], seq![l2]);
                lemma_render_concat(seq![l0], seq![l1]);
                lemma_render_singleton(l0);
                lemma_render_singleton(l1);
                lemma_render_singleton(l2);
                lemma_render_singleton(l3);
            }
            assert(out@ =~= base_stack + render_lines(stack_lines(bv.stack)));
        }
        let ghost base_bps = out@;
        let mut i: usize = 0;
        proof {
            assert(bv.buildpacks.take(0) =~= Seq::<crate::buildpack::BuildpackView>::empty());
            assert(out@ =~= base_bps + render_lines(buildpacks_lines(bv.buildpacks.take(0))));
        }
        while i < self.buildpacks.len()
            invariant
                i <= self.buildpacks.len(),
                bv == self@,
                bv.buildpacks.len() == self.buildpacks.len(),
                out@ == base_bps + render_lines(buildpacks_lines(bv.buildpacks.take(i as int))),
            decreases self.buildpacks.len() - i,
        {
            let bp = &self.buildpacks[i];
            proof {
                assert(bv.buildpacks[i as int] == bp@);
            }
            let ghost before = out@;
            push_header(&mut out, "[[buildpacks]]");
            push_str_entry(&mut out, "uri", bp.uri.as_str());
            match &bp.version {
                Some(v) => {
                    push_str_entry(&mut out, "version", v.as_str());
                },
                None => {},
            }
            match &bp.optional {
                Some(b) => {
                    push_bool_entry(&mut out, "optional", *b);
                },
                None => {},
            }
            proof {
                reveal_strlit("[[buildpacks]]");
                assert(out@ =~= before + render_lines(buildpack_lines(bp@))) by {
                    let hdr = seq![bp_header()];
                    let uri = seq![str_entry("uri"@, bp@.uri)];
                    let vls = opt_str_lines("version"@, bp@.version);
                    let ols = opt_bool_lines("optional"@, bp@.optional);
                    assert(buildpack_lines(bp@) =~= hdr + uri + vls + ols);
                    lemma_render_concat(hdr + uri + vls, ols);
                    lemma_render_concat(hdr + uri, vls);
                    lemma_render_concat(hdr, uri);
                    lemma_render_singleton(bp_header());
                    lemma_render_singleton(str_entry("uri"@, bp@.uri));
                    match bp@.version {
                        Some(v) => {
                            lemma_render_singleton(str_entry("version"@, v));
                        },
                        None => {},
                    }
                    match bp@.optional {
                        Some(b) => {
                            lemma_render_singleton(bool_entry("optional"@, b));
                        },
                        None => {},
                    }
                }
                assert(bv.buildpacks.take(i + 1) =~= bv.buildpacks.take(i as int) + seq![
                    bv.buildpacks[i as int],
                ]);
                lemma_buildpacks_lines_concat(
                    bv.buildpacks.take(i as int),
                    seq![bv.buildpacks[i as int]],
                );
                lemma_buildpacks_lines_singleton(bv.buildpacks[i as int]);
                lemma_render_concat(
                    buildpacks_lines(bv.buildpacks.take(i as int)),
                    buildpack_lines(bv.buildpacks[i as int]),
                );
                assert(out@ =~= base_bps + render_lines(
                    buildpacks_lines(bv.buildpacks.take(i + 1)),
                ));
            }
            i = i + 1;
        }
        proof {
            assert(bv.buildpacks.take(bv.buildpacks.len() as int) =~= bv.buildpacks);
        }
        let ghost base_orders = out@;
        let mut k: usize = 0;
        proof {
            assert(bv.order.take(0) =~= Seq::<crate::builder::OrderView>::empty());
            assert(out@ =~= base_orders + render_lines(orders_lines(bv.order.take(0))));
        }
        while k < self.order.len()
            invariant
                k <= self.order.len(),
                bv == self@,
                bv.order.len() == self.order.len(),
                out@ == base_orders + render_lines(orders_lines(bv.order.take(k as int))),
            decreases self.order.len() - k,
        {
            let o = &self.order[k];
            proof {
                assert(bv.order[k as int] == o@);
            }
            let ghost before_order = out@;
            push_header(&mut out, "[[order]]");
            let ghost base_groups = out@;
            let mut j: usize = 0;
            proof {
                assert(o@.group.take(0) =~= Seq::<crate::builder::GroupView>::empty());
                assert(out@ =~= base_groups + render_lines(groups_lines(o@.group.take(0))));
            }
            while j < o.group.len()
                invariant
                    j <= o.group.len(),
                    o@.group.len() == o.group.len(),
                    o@ == self.order[k as int]@,
                    out@ == base_groups + render_lines(groups_lines(o@.group.take(j as int))),
                decreases o.group.len() - j,
            {
                let g = &o.group[j];
                proof {
                    assert(o@.group[j as int] == g@);
                }
                let ghost before_group = out@;
                push_header(&mut out, "[[order.group]]");
                match &g.id {
                    Some(v) => {
                        push_str_entry(&mut out, "id", v.as_str());
                    },
                    None => {},
                }
                match &g.optional {
                    Some(b) => {
                        push_bool_entry(&mut out, "optional", *b);
                    },
                    None => {},
                }
                proof {
                    reveal_strlit("[[order.group]]");
                    assert(out@ =~= before_group + render_lines(group_lines(g@))) by {
                        lemma_render_concat(
                            seq![group_header()],
                            opt_str_lines("id"@, g@.id) + opt_bool_lines("optional"@, g@.optional),
                        );
                        lemma_render_concat(
                            opt_str_lines("id"@, g@.id),
                            opt_bool_lines("optional"@, g@.optional),
                        );
                        lemma_render_singleton(group_header());
                        assert(group_lines(g@) =~= seq![group_header()] + (opt_str_lines(
                            "id"@,
                            g@.id,
                        ) + opt_bool_lines("optional"@, g@.optional)));
                        match g@.id {
                            Some(v) => {
                                lemma_render_singleton(str_entry("id"@, v));
                            },
                            None => {},
                        }
                        match g@.optional {
                            Some(b) => {
                                lemma_render_singleton(bool_entry("optional"@, b));
                            },
                            None => {},
                        }
                    }
                    assert(o@.group.take(j + 1) =~= o@.group.take(j as int) + seq![
                        o@.group[j as int],
                    ]);
                    lemma_groups_lines_concat(o@.group.take(j as int), seq![o@.group[j as int]]);
                    lemma_groups_lines_singleton(o@.group[j as int]);
                    lemma_render_concat(
                        groups_lines(o@.group.take(j as int)),
                        group_lines(o@.group[j as int]),
                    );
                    assert(out@ =~= base_groups + render_lines(groups_lines(o@.group.take(j + 1))));
                }
                j = j + 1;
            }
            proof {
                reveal_strlit("[[order]]");
                assert(o@.group.take(o@.group.len() as int) =~= o@.group);
                assert(out@ =~= before_order + render_lines(order_lines(o@))) by {
                    lemma_render_concat(seq![order_header()], groups_lines(o@.group));
                    lemma_render_singleton(order_header());
                    assert(order_lines(o@) =~= seq![order_header()] + groups_lines(o@.group));
                }
                assert(bv.order.take(k + 1) =~= bv.order.take(k as int) + seq![bv.order[k as int]]);
                lemma_orders_lines_concat(bv.order.take(k as int), seq![bv.order[k as int]]);
                lemma_orders_lines_singleton(bv.order[k as int]);
                lemma_render_concat(
                    orders_lines(bv.order.take(k as int)),
                    order_lines(bv.order[k as int]),
                );
                assert(out@ =~= base_orders + render_lines(orders_lines(bv.order.take(k + 1))));
            }
            k = k + 1;
        }
        proof {
            reveal_strlit("[stack]");
            assert(bv.order.take(bv.order.len() as int) =~= bv.order);
            lemma_render_concat(
                opt_str_lines("description"@, bv.description),
                stack_lines(bv.stack),
            );
            lemma_render_concat(
                opt_str_lines("description"@, bv.description) + stack_lines(bv.stack),
                buildpacks_lines(bv.buildpacks),
            );
            lemma_render_concat(
                opt_str_lines("description"@, bv.description) + stack_lines(bv.stack)
                    + buildpacks_lines(bv.buildpacks),
                orders_lines(bv.order),
            );
            assert(out@ =~= builder_doc(bv));
        }
        out
    }
}

} // verus!
