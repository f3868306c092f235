use vstd::prelude::*;
use vstd::string::StringExecFns;
use crate::text::digit_char;

verus! {

/// A lowercase hexadecimal digit.
pub open spec fn hex_digit(d: nat) -> char {
    if d < 10 {
        digit_char(d)
    } else if d == 10 {
        'a'
    } else if d == 11 {
        'b'
    } else if d == 12 {
        'c'
    } else if d == 13 {
        'd'
    } else if d == 14 {
        'e'
    } else {
        'f'
    }
}

/// How one character stands inside a JSON string: quote and backslash escaped,
/// backspace, tab, line feed, form feed and carriage return by their short escapes,
/// the other characters below U+0020 as `\u00xx` in lowercase hex, all else as is.
pub open spec fn escape_char(c: char) -> Seq<char> {
    if c == '"' {
        seq!['\\', '"']
    } else if c == '\\' {
        seq!['\\', '\\']
    } else if c == '\u{8}' {
        seq!['\\', 'b']
    } else if c == '\t' {
        seq!['\\', 't']
    } else if c == '\n' {
        seq!['\\', 'n']
    } else if c == '\u{c}' {
        seq!['\\', 'f']
    } else if c == '\r' {
        seq!['\\', 'r']
    } else if (c as u32) < 0x20 {
        seq!['\\', 'u', '0', '0', hex_digit(((c as u32) / 16) as nat), hex_digit(((c as u32) % 16) as nat)]
    } else {
        seq![c]
    }
}

/// The characters of `s`, each in its JSON form.
pub open spec fn escaped(s: Seq<char>) -> Seq<char>
    decreases s.len(),
{
    if s.len() == 0 {
        Seq::empty()
    } else {
        escaped(s.drop_last()) + escape_char(s.last())
    }
}

/// The compact JSON string that holds `s`.
pub open spec fn json_quoted(s: Seq<char>) -> Seq<char> {
    seq!['"'] + escaped(s) + seq!['"']
}

/// Relies on serde_json's `Display` for `Value::String` (compact form, through
/// `format_escaped_str` and its fixed escape table): the string in quotes, each
/// character escaped as `escape_char` states.
#[verifier::external_body]
fn json_string(s: &str) -> (r: String)
    ensures
        r@ == json_quoted(s@),
{
    serde_json::Value::String(s.to_owned()).to_string()
}

/// One compiled contract: its name and its artifact as JSON text.
pub struct ContractEntry {
    pub name: String,
    pub artifact: String,
}

/// The result of one compilation attempt.
pub enum Snapshot {
    Success { contracts: Vec<ContractEntry> },
    Error { diagnostic: String },
}

pub type EntryModel = (Seq<char>, Seq<char>);

pub open spec fn entry_model(e: ContractEntry) -> EntryModel {
    (e.name@, e.artifact@)
}

pub open spec fn entries_model(es: Seq<ContractEntry>) -> Seq<EntryModel> {
    es.map_values(|e: ContractEntry| entry_model(e))
}

/// The index of the entry named `name` in `m`, or -1.
pub open spec fn position_of(m: Seq<EntryModel>, name: Seq<char>) -> int
    decreases m.len(),
{
    if m.len() == 0 {
        -1
    } else if m.last().0 == name {
        m.len() - 1
    } else {
        position_of(m.drop_last(), name)
    }
}

/// The mapping that compiler output in order builds: a name seen before keeps its
/// place and takes the later artifact; a new name goes at the end.
pub open spec fn merged(outputs: Seq<EntryModel>) -> Seq<EntryModel>
    decreases outputs.len(),
{
    if outputs.len() == 0 {
        Seq::empty()
    } else {
        let m = merged(outputs.drop_last());
        let e = outputs.last();
        let p = position_of(m, e.0);
        if p >= 0 { m.update(p, e) } else { m.push(e) }
    }
}

proof fn lemma_position_bounds(m: Seq<EntryModel>, name: Seq<char>)
    ensures
        -1 <= position_of(m, name) < m.len(),
        position_of(m, name) >= 0 ==> m[position_of(m, name)].0 == name,
        position_of(m, name) == -1 ==> forall|i: int| 0 <= i < m.len() ==> #[trigger] m[i].0 != name,
    decreases m.len(),
{
    if m.len() > 0 {
        lemma_position_bounds(m.drop_last(), name);
        if m.last().0 != name {
            assert forall|i: int| 0 <= i < m.len() - 1 implies #[trigger] m[i] == m.drop_last()[i] by {}
        }
    }
}

/// The names in a merged mapping are distinct.
pub open spec fn names_distinct(m: Seq<EntryModel>) -> bool {
    forall|i: int, j: int| 0 <= i < j < m.len() ==> #[trigger] m[i].0 != #[trigger] m[j].0
}

/// A merged mapping never holds a name twice.
pub proof fn lemma_merged_names_distinct(outputs: Seq<EntryModel>)
    ensures
        names_distinct(merged(outputs)),
    decreases outputs.len(),
{
    if outputs.len() > 0 {
        let m = merged(outputs.drop_last());
        let e = outputs.last();
        lemma_merged_names_distinct(outputs.drop_last());
        lemma_position_bounds(m, e.0);
    }
}

/// Where several outputs share a name, the mapping holds that name once, with the
/// artifact of the last output of that name.
pub proof fn lemma_last_artifact_wins(outputs: Seq<EntryModel>, k: int)
    requires
        0 <= k < outputs.len(),
        forall|j: int| k < j < outputs.len() ==> #[trigger] outputs[j].0 != outputs[k].0,
    ensures
        names_distinct(merged(outputs)),
        exists|p: int| 0 <= p < merged(outputs).len() && #[trigger] merged(outputs)[p] == outputs[k],
    decreases outputs.len(),
{
    lemma_merged_names_distinct(outputs);
    let init = outputs.drop_last();
    let m = merged(init);
    let e = outputs.last();
    lemma_position_bounds(m, e.0);
    let pos = position_of(m, e.0);
    if k == outputs.len() - 1 {
        if pos >= 0 {
            assert(merged(outputs)[pos] == outputs[k]);
        } else {
            assert(merged(outputs)[m.len() as int] == outputs[k]);
        }
    } else {
        assert forall|j: int| k < j < init.len() implies #[trigger] init[j].0 != init[k].0 by {
            assert(outputs[j].0 != outputs[k].0);
        }
        lemma_last_artifact_wins(init, k);
        let p0 = choose|p: int| 0 <= p < m.len() && #[trigger] m[p] == init[k];
        assert(e.0 != outputs[k].0);
        assert(merged(outputs)[p0] == outputs[k]);
    }
}

/// Builds the name-to-artifact mapping from compiler output, in output order; where
/// two contracts share a name, the later artifact wins.
pub fn merge_contracts(outputs: &Vec<(String, String)>) -> (r: Vec<ContractEntry>)
    ensures
        entries_model(r@) == merged(outputs@.map_values(|o: (String, String)| (o.0@, o.1@))),
{
    let ghost os = outputs@.map_values(|o: (String, String)| (o.0@, o.1@));
    let mut out: Vec<ContractEntry> = Vec::new();
    let mut i: usize = 0;
    assert(os.take(0) =~= Seq::<EntryModel>::empty());
    assert(entries_model(out@) =~= Seq::<EntryModel>::empty());
    while i < outputs.len()
        invariant
            os == outputs@.map_values(|o: (String, String)| (o.0@, o.1@)),
            i <= outputs.len(),
            entries_model(out@) == merged(os.take(i as int)),
        decreases outputs.len() - i,
    {
        let ghost m = entries_model(out@);
        assert(os.take(i + 1).drop_last() =~= os.take(i as int));
        assert(os.take(i + 1).last() == os[i as int]);
        assert(os[i as int] == (outputs@[i as int].0@, outputs@[i as int].1@));
        let name = outputs[i].0.clone();
        let artifact = outputs[i].1.clone();
        proof {
            lemma_position_bounds(m, name@);
        }
        let mut j: usize = out.len();
        let mut found = false;
        assert(m.take(out.len() as int) =~= m);
        while j > 0 && !found
            invariant
                j <= out.len(),
                m == entries_model(out@),
                found ==> j >= 1 && position_of(m, name@) == j - 1,
                !found ==> position_of(m.take(j as int), name@) == position_of(m, name@),
            decreases j + if found { 0int } else { 1int },
        {
            assert(m.take(j as int).drop_last() =~= m.take(j - 1));
            assert(m.take(j as int).last() == m[j - 1]);
            if out[j - 1].name == name {
                found = true;
            } else {
                j = j - 1;
            }
        }
        if found {
            let ghost p = (j - 1) as int;
            assert(position_of(m, name@) == p);
            out.set(j - 1, ContractEntry { name, artifact });
            assert(entries_model(out@) =~= m.update(p, (os[i as int].0, os[i as int].1)));
        } else {
            assert(m.take(0) =~= Seq::<EntryModel>::empty());
            out.push(ContractEntry { name, artifact });
            assert(entries_model(out@) =~= m.push((os[i as int].0, os[i as int].1)));
        }
        i = i + 1;
    }
    assert(os.take(outputs.len() as int) =~= os);
    out
}

/// The wire form of one contract entry, from its name already in JSON form.
pub open spec fn entry_text(e: EntryModel) -> Seq<char> {
    "{\"name\":"@ + e.0 + ",\"artifact\":"@ + e.1 + "}"@
}

/// The wire forms of entries, separated by commas.
pub open spec fn entries_text(es: Seq<EntryModel>) -> Seq<char>
    decreases es.len(),
{
    if es.len() == 0 {
        Seq::empty()
    } else if es.len() == 1 {
        entry_text(es[0])
    } else {
        entries_text(es.drop_last()) + ","@ + entry_text(es.last())
    }
}

pub open spec fn success_frame(es: Seq<EntryModel>) -> Seq<char> {
    "{\"type\":\"compile_success\",\"contracts\":["@ + entries_text(es) + "]}"@
}

pub open spec fn error_frame(quoted: Seq<char>) -> Seq<char> {
    "{\"type\":\"compile_error\",\"error\":"@ + quoted + "}"@
}

/// Entries with their names in JSON form.
pub open spec fn quoted_entries(es: Seq<EntryModel>) -> Seq<EntryModel> {
    es.map_values(|e: EntryModel| (json_quoted(e.0), e.1))
}

/// The wire form of a snapshot, as subscribers receive it.
pub open spec fn wire_of(s: Snapshot) -> Seq<char> {
    match s {
        Snapshot::Success { contracts } => success_frame(quoted_entries(entries_model(contracts@))),
        Snapshot::Error { diagnostic } => error_frame(json_quoted(diagnostic@)),
    }
}

/// The success message around entries whose names are already JSON strings:
/// `{"type":"compile_success","contracts":[{"name":..,"artifact":..},..]}`.
pub fn frame_success(entries: &Vec<(String, String)>) -> (r: String)
    ensures
        r@ == success_frame(entries@.map_values(|o: (String, String)| (o.0@, o.1@))),
{
    let ghost es = entries@.map_values(|o: (String, String)| (o.0@, o.1@));
    let mut out = "{\"type\":\"compile_success\",\"contracts\":[".to_owned();
    let ghost head = out@;
    proof {
        reveal_strlit("{\"type\":\"compile_success\",\"contracts\":[");
        reveal_strlit(",");
        reveal_strlit("]}");
        reveal_strlit("{\"name\":");
        reveal_strlit(",\"artifact\":");
        reveal_strlit("}");
    }
    let mut i: usize = 0;
    assert(es.take(0) =~= Seq::<EntryModel>::empty());
    assert(out@ =~= head + entries_text(es.take(0)));
    while i < entries.len()
        invariant
            es == entries@.map_values(|o: (String, String)| (o.0@, o.1@)),
            head == "{\"type\":\"compile_success\",\"contracts\":["@,
            i <= entries.len(),
            out@ == head + entries_text(es.take(i as int)),
        decreases entries.len() - i,
    {
        let ghost before = out@;
        assert(es.take(i + 1).drop_last() =~= es.take(i as int));
        assert(es.take(i + 1).last() == es[i as int]);
        assert(es[i as int] == (entries@[i as int].0@, entries@[i as int].1@));
        if i > 0 {
            out.append(",");
        }
        out.append("{\"name\":");
        out.append(entries[i].0.as_str());
        out.append(",\"artifact\":");
        out.append(entries[i].1.as_str());
        out.append("}");
        if i > 0 {
            assert(out@ =~= before + ","@ + entry_text(es[i as int]));
        } else {
            assert(out@ =~= before + entry_text(es[i as int]));
            assert(es.take(1) =~= seq![es[0]]);
        }
        i = i + 1;
    }
    assert(es.take(entries.len() as int) =~= es);
    out.append("]}");
    assert(out@ =~= success_frame(es));
    out
}

/// The error message around a diagnostic already in JSON form:
/// `{"type":"compile_error","error":..}`.
pub fn frame_error(quoted: &str) -> (r: String)
    ensures
        r@ == error_frame(quoted@),
{
    let mut out = "{\"type\":\"compile_error\",\"error\":".to_owned();
    out.append(quoted);
    out.append("}");
    proof {
        reveal_strlit("{\"type\":\"compile_error\",\"error\":");
        reveal_strlit("}");
    }
    assert(out@ =~= error_frame(quoted@));
    out
}

impl Snapshot {
    /// The snapshot of a successful compile, from its output in order.
    pub fn from_outputs(outputs: &Vec<(String, String)>) -> (r: Snapshot)
        ensures
            r matches Snapshot::Success { contracts } && entries_model(contracts@) == merged(
                outputs@.map_values(|o: (String, String)| (o.0@, o.1@)),
            ),
    {
        Snapshot::Success { contracts: merge_contracts(outputs) }
    }

    /// The wire form: `{"type":"compile_success","contracts":[...]}` or
    /// `{"type":"compile_error","error":...}`.
    pub fn to_wire(&self) -> (r: String)
        ensures
            r@ == wire_of(*self),
    {
        match self {
            Snapshot::Success { contracts } => {
                let ghost es = entries_model(contracts@);
                let mut quoted: Vec<(String, String)> = Vec::new();
                let mut i: usize = 0;
                while i < contracts.len()
                    invariant
                        es == entries_model(contracts@),
                        i <= contracts.len(),
                        quoted@.map_values(|o: (String, String)| (o.0@, o.1@)) == quoted_entries(es).take(i as int),
                    decreases contracts.len() - i,
                {
                    let ghost before = quoted@.map_values(|o: (String, String)| (o.0@, o.1@));
                    assert(es[i as int] == (contracts@[i as int].name@, contracts@[i as int].artifact@));
                    assert(quoted_entries(es)[i as int] == (json_quoted(es[i as int].0), es[i as int].1));
                    let name = json_string(contracts[i].name.as_str());
                    let artifact = contracts[i].artifact.clone();
                    assert((name@, artifact@) == quoted_entries(es)[i as int]);
                    quoted.push((name, artifact));
                    assert(quoted@.map_values(|o: (String, String)| (o.0@, o.1@)) =~= before.push(quoted_entries(es)[i as int]));
                    assert(quoted_entries(es).take(i + 1) =~= quoted_entries(es).take(i as int).push(quoted_entries(es)[i as int]));
                    assert(quoted@.map_values(|o: (String, String)| (o.0@, o.1@)) =~= quoted_entries(es).take(i + 1));
                    i = i + 1;
                }
                assert(quoted_entries(es).take(contracts.len() as int) =~= quoted_entries(es));
                frame_success(&quoted)
            },
            Snapshot::Error { diagnostic } => {
                let q = json_string(diagnostic.as_str());
                frame_error(q.as_str())
            },
        }
    }
}

} // verus!
