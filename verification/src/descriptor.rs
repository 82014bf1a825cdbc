//! The descriptor store: plugin metadata records and the disabled-plugin
//! list, with the line-oriented record format they are persisted in.
//!
//! A record is a fixed sequence of lines, one field per line, each terminated
//! with a newline.  An optional field is marked `-` (absent) or `+` followed
//! by the value; the theme list is `-` (empty) or `+` followed by the entries
//! joined with tabs.  Parsing is proved to invert encoding field for field.

use crate::strutil::{
    free_of, join_lines, join_seq, join_strs, lemma_join_free_of, lemma_join_lines_snoc,
    lemma_split_join, lemma_split_lines, pieces_free_of, seq_views, split_seq, split_str,
};
use vstd::prelude::*;

verus! {

/// Declarative plugin metadata.  Paths are rewritten to absolute form when
/// the descriptor is loaded; the configuration is an opaque value kept as the
/// text it was written in.
pub struct PluginDescriptor {
    pub name: String,
    pub version: String,
    pub repository: String,
    pub wasm: Option<String>,
    pub themes: Vec<String>,
    pub configuration: Option<String>,
    pub dir: Option<String>,
}

/// The mathematical content of a descriptor.
pub ghost struct DescriptorView {
    pub name: Seq<char>,
    pub version: Seq<char>,
    pub repository: Seq<char>,
    pub wasm: Option<Seq<char>>,
    pub themes: Seq<Seq<char>>,
    pub configuration: Option<Seq<char>>,
    pub dir: Option<Seq<char>>,
}

/// The view of an optional string field.
pub open spec fn opt_view(o: Option<String>) -> Option<Seq<char>> {
    match o {
        None => None,
        Some(s) => Some(s@),
    }
}

impl View for PluginDescriptor {
    type V = DescriptorView;

    open spec fn view(&self) -> DescriptorView {
        DescriptorView {
            name: self.name@,
            version: self.version@,
            repository: self.repository@,
            wasm: opt_view(self.wasm),
            themes: seq_views(self.themes@),
            configuration: opt_view(self.configuration),
            dir: opt_view(self.dir),
        }
    }
}

impl Clone for PluginDescriptor {
    /// A clone carries exactly the same fields.
    fn clone(&self) -> (r: Self)
        ensures
            r@ == self@,
    {
        let r = PluginDescriptor {
            name: self.name.clone(),
            version: self.version.clone(),
            repository: self.repository.clone(),
            wasm: clone_opt_string(&self.wasm),
            themes: clone_string_vec(&self.themes),
            configuration: clone_opt_string(&self.configuration),
            dir: clone_opt_string(&self.dir),
        };
        r
    }
}

/// Duplicates an optional string, field for field.
pub fn clone_opt_string(o: &Option<String>) -> (r: Option<String>)
    ensures
        r == *o,
{
    match o {
        None => None,
        Some(s) => Some(s.clone()),
    }
}

/// Duplicates a vector of strings, entry for entry.
pub fn clone_string_vec(v: &Vec<String>) -> (r: Vec<String>)
    ensures
        seq_views(r@) == seq_views(v@),
{
    let mut r: Vec<String> = Vec::new();
    let mut i: usize = 0;
    while i < v.len()
        invariant
            i <= v@.len(),
            seq_views(r@) =~~= seq_views(v@).take(i as int),
        decreases v@.len() - i,
    {
        let ghost prev = r@;
        r.push(v[i].clone());
        proof {
            assert(r@ =~~= prev.push(v@[i as int]));
            assert(seq_views(prev.push(v@[i as int])) =~~= seq_views(prev).push(v@[i as int]@));
            assert(seq_views(v@).take(i as int + 1) =~~= seq_views(v@).take(i as int).push(
                v@[i as int]@,
            ));
            assert(seq_views(r@) =~~= seq_views(v@).take(i as int + 1));
        }
        i = i + 1;
    }
    proof {
        assert(seq_views(v@).take(v@.len() as int) =~~= seq_views(v@));
    }
    r
}

impl PluginDescriptor {
    /// The language id named by the plugin's opaque configuration: the string
    /// under the one key the host acts on, read through the JSON surface.
    /// `None` when the configuration is absent, unreadable, or names no
    /// language; the `Stop` teardown fallback acts on exactly this result.
    pub fn configuration_language_id(&self) -> (r: Option<String>)
        ensures
            match self.configuration {
                None => r is None,
                Some(c) => opt_view(r) == crate::json::json_string_field(c@, ("language_id")@),
            },
    {
        match &self.configuration {
            None => None,
            Some(text) => crate::json::read_json_string_field(text.as_str(), "language_id"),
        }
    }
}

/// The line an optional field is written as.
pub open spec fn opt_line(o: Option<Seq<char>>) -> Seq<char> {
    match o {
        None => seq!['-'],
        Some(s) => seq!['+'] + s,
    }
}

/// The line the theme list is written as.
pub open spec fn list_line(v: Seq<Seq<char>>) -> Seq<char> {
    if v.len() == 0 {
        seq!['-']
    } else {
        seq!['+'] + join_seq(v, '\t')
    }
}

/// The lines of a descriptor record, in their fixed order.
pub open spec fn descriptor_lines(d: DescriptorView) -> Seq<Seq<char>> {
    seq![
        d.name,
        d.version,
        d.repository,
        opt_line(d.wasm),
        list_line(d.themes),
        opt_line(d.configuration),
        opt_line(d.dir),
    ]
}

/// The text of a descriptor record.
pub open spec fn encode_descriptor_spec(d: DescriptorView) -> Seq<char> {
    join_lines(descriptor_lines(d))
}

/// A field value that fits on one line.
pub open spec fn line_clean(s: Seq<char>) -> bool {
    free_of(s, '\n')
}

/// Whether a descriptor can be written in the record format: every field fits
/// on one line, and theme entries are also free of the tab that joins them.
pub open spec fn descriptor_encodable(d: DescriptorView) -> bool {
    &&& line_clean(d.name)
    &&& line_clean(d.version)
    &&& line_clean(d.repository)
    &&& match d.wasm {
        Some(s) => line_clean(s),
        None => true,
    }
    &&& forall|i: int|
        0 <= i < d.themes.len() ==> line_clean(#[trigger] d.themes[i]) && free_of(
            d.themes[i],
            '\t',
        )
    &&& match d.configuration {
        Some(s) => line_clean(s),
        None => true,
    }
    &&& match d.dir {
        Some(s) => line_clean(s),
        None => true,
    }
}

/// Decides whether a descriptor fits the record format, so that a caller can
/// refuse one that would not read back as written.
pub fn descriptor_is_encodable(d: &PluginDescriptor) -> (r: bool)
    ensures
        r == descriptor_encodable(d@),
{
    if !crate::strutil::str_free_of(d.name.as_str(), '\n') {
        return false;
    }
    if !crate::strutil::str_free_of(d.version.as_str(), '\n') {
        return false;
    }
    if !crate::strutil::str_free_of(d.repository.as_str(), '\n') {
        return false;
    }
    match &d.wasm {
        Some(w) => if !crate::strutil::str_free_of(w.as_str(), '\n') {
            return false;
        },
        None => {},
    }
    match &d.configuration {
        Some(c) => if !crate::strutil::str_free_of(c.as_str(), '\n') {
            return false;
        },
        None => {},
    }
    match &d.dir {
        Some(p) => if !crate::strutil::str_free_of(p.as_str(), '\n') {
            return false;
        },
        None => {},
    }
    let mut i: usize = 0;
    while i < d.themes.len()
        invariant
            i <= d.themes@.len(),
            forall|q: int|
                0 <= q < i ==> line_clean(#[trigger] d.themes@[q]@) && free_of(
                    d.themes@[q]@,
                    '\t',
                ),
        decreases d.themes@.len() - i,
    {
        if !crate::strutil::str_free_of(d.themes[i].as_str(), '\n') {
            proof {
                assert(d@.themes[i as int] == d.themes@[i as int]@);
            }
            return false;
        }
        if !crate::strutil::str_free_of(d.themes[i].as_str(), '\t') {
            proof {
                assert(d@.themes[i as int] == d.themes@[i as int]@);
            }
            return false;
        }
        i = i + 1;
    }
    proof {
        assert forall|q: int| 0 <= q < d@.themes.len() implies line_clean(#[trigger] d@.themes[q])
            && free_of(d@.themes[q], '\t') by {
            assert(d@.themes[q] == d.themes@[q]@);
        }
    }
    true
}

/// What an optional-field line parses to: `None` refuses the line.
pub open spec fn parse_opt_spec(p: Seq<char>) -> Option<Option<Seq<char>>> {
    if p == seq!['-'] {
        Some(None)
    } else if p.len() >= 1 && p[0] == '+' {
        Some(Some(p.skip(1)))
    } else {
        None
    }
}

/// What a theme-list line parses to: `None` refuses the line.
pub open spec fn parse_list_spec(p: Seq<char>) -> Option<Seq<Seq<char>>> {
    if p == seq!['-'] {
        Some(Seq::<Seq<char>>::empty())
    } else if p.len() >= 1 && p[0] == '+' {
        Some(split_seq(p.skip(1), '\t'))
    } else {
        None
    }
}

/// What a descriptor record parses to: the eight pieces around the newlines
/// are the seven fields and the empty piece after the final newline; any
/// other shape is refused.
pub open spec fn parse_descriptor_spec(s: Seq<char>) -> Option<DescriptorView> {
    let ps = split_seq(s, '\n');
    if ps.len() == 8 && ps[7].len() == 0 && parse_opt_spec(ps[3]) is Some && parse_list_spec(
        ps[4],
    ) is Some && parse_opt_spec(ps[5]) is Some && parse_opt_spec(ps[6]) is Some {
        Some(
            DescriptorView {
                name: ps[0],
                version: ps[1],
                repository: ps[2],
                wasm: parse_opt_spec(ps[3])->0,
                themes: parse_list_spec(ps[4])->0,
                configuration: parse_opt_spec(ps[5])->0,
                dir: parse_opt_spec(ps[6])->0,
            },
        )
    } else {
        None
    }
}

proof fn lemma_parse_opt_inverts(o: Option<Seq<char>>)
    ensures
        parse_opt_spec(opt_line(o)) == Some(o),
{
    match o {
        None => {
            assert(opt_line(o) == seq!['-']);
        },
        Some(s) => {
            let p = seq!['+'] + s;
            assert(p[0] == '+');
            assert(p != seq!['-']) by {
                assert(seq!['-'][0] == '-');
            }
            assert(p.skip(1) =~= s);
        },
    }
}

proof fn lemma_parse_list_inverts(v: Seq<Seq<char>>)
    requires
        pieces_free_of(v, '\t'),
    ensures
        parse_list_spec(list_line(v)) == Some(v),
{
    if v.len() == 0 {
        assert(list_line(v) == seq!['-']);
        assert(parse_list_spec(list_line(v)) == Some(Seq::<Seq<char>>::empty()));
        assert(Seq::<Seq<char>>::empty() =~~= v);
    } else {
        let p = seq!['+'] + join_seq(v, '\t');
        assert(p[0] == '+');
        assert(p != seq!['-']) by {
            assert(seq!['-'][0] == '-');
        }
        assert(p.skip(1) =~= join_seq(v, '\t'));
        lemma_split_join(v, '\t');
    }
}

proof fn lemma_opt_line_clean(o: Option<Seq<char>>)
    requires
        match o {
            Some(s) => line_clean(s),
            None => true,
        },
    ensures
        line_clean(opt_line(o)),
{
    match o {
        None => {},
        Some(s) => {
            assert forall|i: int| 0 <= i < opt_line(o).len() implies opt_line(o)[i] != '\n' by {
                if i > 0 {
                    assert(opt_line(o)[i] == s[i - 1]);
                }
            }
        },
    }
}

proof fn lemma_list_line_clean(v: Seq<Seq<char>>)
    requires
        forall|i: int|
            0 <= i < v.len() ==> line_clean(#[trigger] v[i]) && free_of(v[i], '\t'),
    ensures
        line_clean(list_line(v)),
{
    if v.len() == 0 {
    } else {
        lemma_join_free_of(v, '\t', '\n');
        let j = join_seq(v, '\t');
        assert forall|i: int| 0 <= i < list_line(v).len() implies list_line(v)[i] != '\n' by {
            if i > 0 {
                assert(list_line(v)[i] == j[i - 1]);
            }
        }
    }
}

/// A descriptor round-tripped through the record format — written by install,
/// read back by discovery — yields field-for-field equality.
pub proof fn lemma_descriptor_round_trip(d: DescriptorView)
    requires
        descriptor_encodable(d),
    ensures
        parse_descriptor_spec(encode_descriptor_spec(d)) == Some(d),
{
    let lines = descriptor_lines(d);
    lemma_opt_line_clean(d.wasm);
    lemma_opt_line_clean(d.configuration);
    lemma_opt_line_clean(d.dir);
    lemma_list_line_clean(d.themes);
    assert(pieces_free_of(lines, '\n')) by {
        assert forall|i: int, j: int|
            0 <= i < lines.len() && 0 <= j < lines[i].len() implies lines[i][j] != '\n' by {
            assert(line_clean(lines[0]) && line_clean(lines[1]) && line_clean(lines[2])
                && line_clean(lines[3]) && line_clean(lines[4]) && line_clean(lines[5])
                && line_clean(lines[6]));
        }
    }
    lemma_split_lines(lines);
    let ps = split_seq(encode_descriptor_spec(d), '\n');
    assert(ps =~~= lines + seq![Seq::<char>::empty()]);
    assert(ps.len() == 8);
    assert(ps[0] == d.name && ps[1] == d.version && ps[2] == d.repository);
    assert(ps[3] == opt_line(d.wasm) && ps[4] == list_line(d.themes) && ps[5] == opt_line(
        d.configuration,
    ) && ps[6] == opt_line(d.dir));
    assert(ps[7].len() == 0);
    lemma_parse_opt_inverts(d.wasm);
    lemma_parse_list_inverts(d.themes);
    lemma_parse_opt_inverts(d.configuration);
    lemma_parse_opt_inverts(d.dir);
}

/// Writes the names one per line: the disabled-plugin list format.
pub fn encode_name_list(names: &Vec<String>) -> (r: String)
    ensures
        r@ == join_lines(seq_views(names@)),
{
    let nl = "\n";
    proof {
        reveal_strlit("\n");
        assert(nl@ =~= seq!['\n']);
    }
    let mut r = String::new();
    let mut i: usize = 0;
    proof {
        assert(seq_views(names@).take(0) =~~= Seq::<Seq<char>>::empty());
        assert(join_lines(Seq::<Seq<char>>::empty()) =~= Seq::<char>::empty());
    }
    while i < names.len()
        invariant
            i <= names@.len(),
            nl@ == seq!['\n'],
            r@ == join_lines(seq_views(names@).take(i as int)),
        decreases names@.len() - i,
    {
        r.append(names[i].as_str());
        r.append(nl);
        proof {
            lemma_join_lines_snoc(seq_views(names@).take(i as int), names@[i as int]@);
            assert(seq_views(names@).take(i as int + 1) =~~= seq_views(names@).take(
                i as int,
            ).push(names@[i as int]@));
        }
        i = i + 1;
    }
    proof {
        assert(seq_views(names@).take(names@.len() as int) =~~= seq_views(names@));
    }
    r
}

/// What the disabled-plugin list parses to: the lines before the final
/// newline; text not ending in a newline (other than the empty text) is
/// refused.
pub open spec fn parse_name_list_spec(s: Seq<char>) -> Option<Seq<Seq<char>>> {
    let ps = split_seq(s, '\n');
    if ps.last().len() == 0 {
        Some(ps.take(ps.len() - 1))
    } else {
        None
    }
}

/// Reads a name list back; inverted by `encode_name_list`.
pub fn parse_name_list(s: &str) -> (r: Option<Vec<String>>)
    ensures
        match r {
            Some(v) => parse_name_list_spec(s@) == Some(seq_views(v@)),
            None => parse_name_list_spec(s@) is None,
        },
{
    let mut pieces = split_str(s, '\n');
    proof {
        crate::strutil::lemma_split_len(s@, '\n');
    }
    let last = pieces.len() - 1;
    if !pieces[last].as_str().is_empty() {
        return None;
    }
    pieces.pop();
    proof {
        assert(seq_views(pieces@) =~~= split_seq(s@, '\n').take(
            split_seq(s@, '\n').len() - 1,
        ));
    }
    Some(pieces)
}

/// The disabled list round-trips: the persisted text parses back to exactly
/// the names that were written.
pub proof fn lemma_name_list_round_trip(names: Seq<Seq<char>>)
    requires
        pieces_free_of(names, '\n'),
    ensures
        parse_name_list_spec(join_lines(names)) == Some(names),
{
    lemma_split_lines(names);
    let ps = split_seq(join_lines(names), '\n');
    assert(ps =~~= names + seq![Seq::<char>::empty()]);
    assert(ps.last().len() == 0);
    assert(ps.take(ps.len() - 1) =~~= names);
}

/// Writes an optional field's line.
fn opt_field_string(o: &Option<String>) -> (r: String)
    ensures
        r@ == opt_line(opt_view(*o)),
{
    let dash = "-";
    let plus = "+";
    proof {
        reveal_strlit("-");
        reveal_strlit("+");
        assert(dash@ =~= seq!['-']);
        assert(plus@ =~= seq!['+']);
    }
    match o {
        None => dash.to_owned(),
        Some(s) => {
            let mut r = plus.to_owned();
            r.append(s.as_str());
            proof {
                assert(r@ =~= seq!['+'] + s@);
            }
            r
        },
    }
}

/// Writes the theme-list line.
fn list_field_string(v: &Vec<String>) -> (r: String)
    ensures
        r@ == list_line(seq_views(v@)),
{
    let dash = "-";
    let plus = "+";
    let tab = "\t";
    proof {
        reveal_strlit("-");
        reveal_strlit("+");
        reveal_strlit("\t");
        assert(dash@ =~= seq!['-']);
        assert(plus@ =~= seq!['+']);
        assert(tab@ =~= seq!['\t']);
    }
    if v.len() == 0 {
        dash.to_owned()
    } else {
        let joined = join_strs(v, '\t', tab);
        let mut r = plus.to_owned();
        r.append(joined.as_str());
        proof {
            assert(r@ =~= seq!['+'] + join_seq(seq_views(v@), '\t'));
        }
        r
    }
}

/// Writes a descriptor in the record format.
pub fn encode_descriptor(d: &PluginDescriptor) -> (r: String)
    ensures
        r@ == encode_descriptor_spec(d@),
{
    let mut lines: Vec<String> = Vec::new();
    lines.push(d.name.clone());
    lines.push(d.version.clone());
    lines.push(d.repository.clone());
    lines.push(opt_field_string(&d.wasm));
    lines.push(list_field_string(&d.themes));
    lines.push(opt_field_string(&d.configuration));
    lines.push(opt_field_string(&d.dir));
    proof {
        assert(seq_views(lines@) =~~= descriptor_lines(d@));
    }
    encode_name_list(&lines)
}

/// Reads an optional field's line back; inverted by the field writer.
fn parse_opt_field(p: &String) -> (r: Option<Option<String>>)
    ensures
        match r {
            Some(o) => parse_opt_spec(p@) == Some(opt_view(o)),
            None => parse_opt_spec(p@) is None,
        },
{
    let n = p.as_str().unicode_len();
    if n == 0 {
        proof {
            assert(p@ != seq!['-']);
        }
        return None;
    }
    let c0 = p.as_str().get_char(0);
    if c0 == '-' {
        if n == 1 {
            proof {
                assert(p@ =~= seq!['-']);
            }
            Some(None)
        } else {
            proof {
                assert(p@ != seq!['-']);
            }
            None
        }
    } else if c0 == '+' {
        let rest = p.as_str().substring_char(1, n).to_owned();
        proof {
            assert(p@ != seq!['-']) by {
                assert(seq!['-'][0] == '-');
            }
            assert(rest@ =~= p@.skip(1));
        }
        Some(Some(rest))
    } else {
        proof {
            assert(p@ != seq!['-']) by {
                assert(seq!['-'][0] == '-');
            }
        }
        None
    }
}

/// Reads the theme-list line back; inverted by the list writer.
fn parse_list_field(p: &String) -> (r: Option<Vec<String>>)
    ensures
        match r {
            Some(v) => parse_list_spec(p@) == Some(seq_views(v@)),
            None => parse_list_spec(p@) is None,
        },
{
    let n = p.as_str().unicode_len();
    if n == 0 {
        proof {
            assert(p@ != seq!['-']);
        }
        return None;
    }
    let c0 = p.as_str().get_char(0);
    if c0 == '-' {
        if n == 1 {
            proof {
                assert(p@ =~= seq!['-']);
                assert(seq_views(Seq::<String>::empty()) =~~= Seq::<Seq<char>>::empty());
            }
            Some(Vec::new())
        } else {
            proof {
                assert(p@ != seq!['-']);
            }
            None
        }
    } else if c0 == '+' {
        let rest = p.as_str().substring_char(1, n);
        let v = split_str(rest, '\t');
        proof {
            assert(p@ != seq!['-']) by {
                assert(seq!['-'][0] == '-');
            }
            assert(rest@ =~= p@.skip(1));
        }
        Some(v)
    } else {
        proof {
            assert(p@ != seq!['-']) by {
                assert(seq!['-'][0] == '-');
            }
        }
        None
    }
}

/// Reads a descriptor record back; inverted by `encode_descriptor` (see the
/// round-trip law).
pub fn parse_descriptor(s: &str) -> (r: Option<PluginDescriptor>)
    ensures
        match r {
            Some(d) => parse_descriptor_spec(s@) == Some(d@),
            None => parse_descriptor_spec(s@) is None,
        },
{
    let pieces = split_str(s, '\n');
    let ghost ps = split_seq(s@, '\n');
    if pieces.len() != 8 {
        return None;
    }
    if !pieces[7].as_str().is_empty() {
        return None;
    }
    let wasm = match parse_opt_field(&pieces[3]) {
        Some(o) => o,
        None => {
            return None;
        },
    };
    let themes = match parse_list_field(&pieces[4]) {
        Some(v) => v,
        None => {
            return None;
        },
    };
    let configuration = match parse_opt_field(&pieces[5]) {
        Some(o) => o,
        None => {
            return None;
        },
    };
    let dir = match parse_opt_field(&pieces[6]) {
        Some(o) => o,
        None => {
            return None;
        },
    };
    let d = PluginDescriptor {
        name: pieces[0].clone(),
        version: pieces[1].clone(),
        repository: pieces[2].clone(),
        wasm,
        themes,
        configuration,
        dir,
    };
    proof {
        assert(parse_descriptor_spec(s@) == Some(d@));
    }
    Some(d)
}

} // verus!
