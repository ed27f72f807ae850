use vstd::prelude::*;
use crate::description::{descriptions_view, FileDescription, StepInChain};
use crate::table::{entry_view, insert_entry, table_of, table_view, Entry};
use crate::text::{
    chars_of, contains_char, push_all, expand_chars, expansions, replace_chars, replaced, seqs_view,
    squeeze_chars, squeezed, string_of,
};

verus! {

/// The resolved watch targets of one step of the copy chain.
pub struct Configuration {
    pub files: Vec<FileDescription>,
}

/// A configuration as written: alias lists and path templates.
pub struct JsonConfiguration {
    pub aliases: Option<Vec<JsonAliases>>,
    pub from_aliases: Option<Vec<JsonAliases>>,
    pub to_aliases: Option<Vec<JsonAliases>>,
    pub files: Vec<JsonFileDescription>,
}

/// The three path templates of one file of the copy chain.
#[derive(Clone, Debug)]
pub struct JsonFileDescription {
    pub from: String,
    pub through: String,
    pub to: String,
}

/// `@name` in a template stands for `replacement`.
pub struct JsonAliases {
    pub name: String,
    pub replacement: String,
}

pub open spec fn aliases_view(a: Option<Vec<JsonAliases>>) -> Seq<Entry> {
    match a {
        Some(v) => v@.map_values(|x: JsonAliases| (x.name@, x.replacement@)),
        None => seq![],
    }
}

/// The aliases in force for a step: the global ones, then those of the step,
/// a later alias of the same name replacing an earlier one.
pub open spec fn alias_table(c: JsonConfiguration, step: StepInChain) -> Seq<Entry> {
    let global = table_of(seq![], aliases_view(c.aliases));
    match step {
        StepInChain::Start => table_of(global, aliases_view(c.from_aliases)),
        StepInChain::End => table_of(global, aliases_view(c.to_aliases)),
    }
}

/// The source and destination templates of a file for a step.
pub open spec fn endpoints(f: JsonFileDescription, step: StepInChain) -> Entry {
    match step {
        StepInChain::Start => (f.from@, f.through@),
        StepInChain::End => (f.through@, f.to@),
    }
}

/// A template with each alias of the table substituted, in table order.
pub open spec fn with_aliases(s: Seq<char>, t: Seq<Entry>) -> Seq<char>
    decreases t.len(),
{
    if t.len() == 0 {
        s
    } else {
        replaced(with_aliases(s, t.drop_last()), seq!['@'] + t.last().0, t.last().1)
    }
}

/// The expansions of source and destination matched by position, as far as
/// both reach, each with its backslash runs collapsed.
pub open spec fn paired(a: Seq<Seq<char>>, b: Seq<Seq<char>>) -> Seq<Entry> {
    Seq::new(
        if a.len() < b.len() { a.len() } else { b.len() },
        |i: int| (squeezed(a[i]), squeezed(b[i])),
    )
}

/// The targets that one substituted source and destination stand for: the
/// pairs of their brace expansions when the source holds both braces, else
/// the pair itself.
pub open spec fn resolved_pairs(from: Seq<char>, to: Seq<char>) -> Seq<Entry> {
    if from.contains('{') && from.contains('}') {
        paired(expansions(from), expansions(to))
    } else {
        seq![(squeezed(from), squeezed(to))]
    }
}

pub open spec fn resolved_files(files: Seq<JsonFileDescription>, t: Seq<Entry>, step: StepInChain) -> Seq<
    Entry,
>
    decreases files.len(),
{
    if files.len() == 0 {
        seq![]
    } else {
        let e = endpoints(files.last(), step);
        resolved_files(files.drop_last(), t, step) + resolved_pairs(
            with_aliases(e.0, t),
            with_aliases(e.1, t),
        )
    }
}

fn insert_aliases(t: &mut Vec<(String, String)>, aliases: &Option<Vec<JsonAliases>>)
    ensures
        table_view(final(t)@) == table_of(table_view(old(t)@), aliases_view(*aliases)),
{
    let ghost start = table_view(t@);
    match aliases {
        Some(v) => {
            let ghost av = aliases_view(*aliases);
            let n = v.len();
            let mut i: usize = 0;
            while i < n
                invariant
                    n == v@.len(),
                    av == v@.map_values(|x: JsonAliases| (x.name@, x.replacement@)),
                    i <= n,
                    table_view(t@) == table_of(start, av.subrange(0, i as int)),
                decreases n - i,
            {
                assert(av.subrange(0, i + 1).drop_last() =~= av.subrange(0, i as int));
                insert_entry(t, v[i].name.clone(), v[i].replacement.clone());
                i = i + 1;
            }
            assert(av.subrange(0, n as int) =~= av);
        },
        None => {},
    }
}

fn apply_aliases(s: &Vec<char>, t: &Vec<(String, String)>) -> (r: Vec<char>)
    ensures
        r@ == with_aliases(s@, table_view(t@)),
{
    let ghost tv = table_view(t@);
    let mut r: Vec<char> = Vec::new();
    push_all(&mut r, s);
    let n = t.len();
    let mut k: usize = 0;
    while k < n
        invariant
            n == t@.len(),
            tv == table_view(t@),
            k <= n,
            r@ == with_aliases(s@, tv.subrange(0, k as int)),
        decreases n - k,
    {
        assert(tv.subrange(0, k + 1).drop_last() =~= tv.subrange(0, k as int));
        assert(tv[k as int] == entry_view(t@[k as int]));
        let mut pat: Vec<char> = Vec::new();
        pat.push('@');
        let name = chars_of(t[k].0.as_str());
        push_all(&mut pat, &name);
        let rep = chars_of(t[k].1.as_str());
        assert(pat@ =~= seq!['@'] + tv[k as int].0);
        r = replace_chars(&r, &pat, &rep);
        k = k + 1;
    }
    assert(tv.subrange(0, n as int) =~= tv);
    r
}

fn target_of(from: &Vec<char>, to: &Vec<char>) -> (r: FileDescription)
    ensures
        r@ == (squeezed(from@), squeezed(to@)),
{
    FileDescription::new(string_of(&squeeze_chars(from)), string_of(&squeeze_chars(to)))
}

fn push_resolved(out: &mut Vec<FileDescription>, from: &Vec<char>, to: &Vec<char>)
    ensures
        descriptions_view(final(out)@) == descriptions_view(old(out)@) + resolved_pairs(from@, to@),
{
    let ghost start = descriptions_view(out@);
    if contains_char(from, '{') && contains_char(from, '}') {
        let ef = expand_chars(from);
        let et = expand_chars(to);
        let ghost p = paired(seqs_view(ef@), seqs_view(et@));
        let n = if ef.len() < et.len() {
            ef.len()
        } else {
            et.len()
        };
        let mut k: usize = 0;
        while k < n
            invariant
                n <= ef@.len(),
                n <= et@.len(),
                p == paired(seqs_view(ef@), seqs_view(et@)),
                n == p.len(),
                k <= n,
                descriptions_view(out@) =~= start + p.subrange(0, k as int),
            decreases n - k,
        {
            let d = target_of(&ef[k], &et[k]);
            assert(d@ == p[k as int]);
            let ghost before = out@;
            out.push(d);
            assert(descriptions_view(out@) =~= descriptions_view(before).push(p[k as int]));
            assert(p.subrange(0, k + 1) =~= p.subrange(0, k as int).push(p[k as int]));
            k = k + 1;
        }
        assert(p.subrange(0, n as int) =~= p);
    } else {
        let d = target_of(from, to);
        out.push(d);
        assert(descriptions_view(out@) =~= start + seq![d@]);
    }
}

/// Resolves a configuration for one step of the copy chain: substitutes the
/// aliases in force into each file's source and destination templates,
/// expands brace groups, and collapses backslash runs.
pub fn resolve_configuration(json: &JsonConfiguration, step_in_chain: StepInChain) -> (r:
    Configuration)
    ensures
        descriptions_view(r.files@) == resolved_files(
            json.files@,
            alias_table(*json, step_in_chain),
            step_in_chain,
        ),
{
    let mut table: Vec<(String, String)> = Vec::new();
    assert(table_view(table@) =~= Seq::<Entry>::empty());
    insert_aliases(&mut table, &json.aliases);
    match step_in_chain {
        StepInChain::Start => insert_aliases(&mut table, &json.from_aliases),
        StepInChain::End => insert_aliases(&mut table, &json.to_aliases),
    }
    let ghost tv = table_view(table@);
    let mut files: Vec<FileDescription> = Vec::new();
    let n = json.files.len();
    let mut i: usize = 0;
    while i < n
        invariant
            n == json.files@.len(),
            tv == table_view(table@),
            tv == alias_table(*json, step_in_chain),
            i <= n,
            descriptions_view(files@) == resolved_files(
                json.files@.subrange(0, i as int),
                tv,
                step_in_chain,
            ),
        decreases n - i,
    {
        assert(json.files@.subrange(0, i + 1).drop_last() =~= json.files@.subrange(0, i as int));
        let f = &json.files[i];
        let (from, to) = match step_in_chain {
            StepInChain::Start => (chars_of(f.from.as_str()), chars_of(f.through.as_str())),
            StepInChain::End => (chars_of(f.through.as_str()), chars_of(f.to.as_str())),
        };
        assert((from@, to@) == endpoints(json.files@[i as int], step_in_chain));
        let from = apply_aliases(&from, &table);
        let to = apply_aliases(&to, &table);
        push_resolved(&mut files, &from, &to);
        i = i + 1;
    }
    assert(json.files@.subrange(0, n as int) =~= json.files@);
    Configuration { files }
}

} // verus!
