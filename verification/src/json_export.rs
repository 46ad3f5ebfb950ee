//! A machine description laid out for display: the names of its states and
//! symbols, its rules keyed by name, and a graph of its transitions with
//! the rules between the same two states and of the same effect merged
//! into one labelled edge.
//!
//! The callers name states and symbols; maps keyed by name are held as
//! vectors sorted by key, names ordered by their characters' code points.
use vstd::prelude::*;
use vstd::string::StrSliceExecFns;
use vstd::string::StringExecFns;

use crate::compiled::{find_position, position};
use crate::keyed::{
    build_append, build_first, build_upsert, entries_view, filings_view, fold_append, fold_first,
    fold_upsert, names_view, represents, Entry, Filing, Names,
};
use crate::keyed::{lemma_fold_append_from, lemma_fold_first_from, lemma_fold_upsert_from, concat_names, append_chars};
use crate::tm::{closed, copy_vec, same_label, some_entries, Dir, Label, Rule, TuringMachineSpec};

verus! {

/// A state, drawn as a node of the graph.
pub struct GraphNode {
    pub id: String,
    pub label: String,
    /// The cluster that the node belongs to, if any.
    pub cluster: Option<String>,
}

/// The rules from one state to another that have the same effect.
pub struct GraphEdge {
    pub id: String,
    pub source: String,
    pub target: String,
    pub label: String,
    /// The symbols that trigger the edge, each as a one-character string.
    pub symbols: Vec<String>,
}

/// A group of nodes drawn together.
pub struct GraphCluster {
    pub id: String,
    pub label: String,
}

/// The transition graph of a machine.
pub struct GraphSpec {
    pub nodes: Vec<GraphNode>,
    pub edges: Vec<GraphEdge>,
    pub clusters: Vec<GraphCluster>,
}

/// A machine description for display.
pub struct JsonTuringMachineSpec {
    pub name: String,
    pub description: String,
    pub all_states: Vec<String>,
    pub all_symbols: Vec<String>,
    pub initial: String,
    pub accepting_states: Vec<String>,
    pub blank: String,
    /// For each state and symbol that a rule starts from: the state's
    /// name, the symbol's name, and the new state's name, the new symbol's
    /// name and the direction (`L` or `R`); sorted by state name, then
    /// symbol name.
    pub rules: Vec<(String, String, (String, String, String))>,
    /// Each symbol's name and its display character, sorted by name.
    pub symbol_chars: Vec<(String, String)>,
    /// Each state's name and its description, sorted by name.
    pub state_descriptions: Vec<(String, String)>,
    pub graph: GraphSpec,
}

/// `String::push`: appends a character to a string.
#[verifier::external_body]
pub(crate) fn push_char(s: &mut String, c: char)
    ensures
        final(s)@ == old(s)@.push(c),
{
    s.push(c);
}

/// The characters of each string.
pub open spec fn strings_view(v: Seq<String>) -> Seq<Seq<char>> {
    v.map_values(|s: String| s@)
}

/// The characters of a string.
pub fn string_chars(s: &String) -> (r: Vec<char>)
    ensures
        r@ == s@,
{
    let t = s.as_str();
    let n = t.unicode_len();
    let mut r: Vec<char> = Vec::new();
    let mut i: usize = 0;
    while i < n
        invariant
            n == t@.len(),
            t@ == s@,
            i <= n,
            r@ == t@.take(i as int),
        decreases n - i,
    {
        let c = t.get_char(i);
        r.push(c);
        assert(r@ =~= t@.take(i + 1));
        i = i + 1;
    }
    assert(t@.take(i as int) =~= t@);
    r
}

/// A string of the given characters.
pub fn chars_string(v: &Vec<char>) -> (r: String)
    ensures
        r@ == v@,
{
    let mut r = String::new();
    let mut i: usize = 0;
    while i < v.len()
        invariant
            i <= v@.len(),
            r@ == v@.take(i as int),
        decreases v.len() - i,
    {
        push_char(&mut r, v[i]);
        assert(r@ =~= v@.take(i + 1));
        i = i + 1;
    }
    assert(v@.take(i as int) =~= v@);
    r
}

/// The characters of each string of a vector.
fn strings_chars(v: &Vec<String>) -> (r: Names)
    ensures
        names_view(r@) == strings_view(v@),
{
    let mut r: Names = Vec::new();
    let mut i: usize = 0;
    while i < v.len()
        invariant
            i <= v@.len(),
            names_view(r@) == strings_view(v@).take(i as int),
        decreases v.len() - i,
    {
        let c = string_chars(&v[i]);
        let ghost before = r@;
        r.push(c);
        assert(names_view(r@) =~= names_view(before).push(c@));
        assert(names_view(r@) =~= strings_view(v@).take(i + 1));
        i = i + 1;
    }
    assert(strings_view(v@).take(i as int) =~= strings_view(v@));
    r
}

/// A string for each name.
fn names_strings(v: &Names) -> (r: Vec<String>)
    ensures
        strings_view(r@) == names_view(v@),
{
    let mut r: Vec<String> = Vec::new();
    let mut i: usize = 0;
    while i < v.len()
        invariant
            i <= v@.len(),
            strings_view(r@) == names_view(v@).take(i as int),
        decreases v.len() - i,
    {
        let c = chars_string(&v[i]);
        let ghost before = r@;
        r.push(c);
        assert(strings_view(r@) =~= strings_view(before).push(c@));
        assert(strings_view(r@) =~= names_view(v@).take(i + 1));
        i = i + 1;
    }
    assert(names_view(v@).take(i as int) =~= names_view(v@));
    r
}

/// The name of a label: the name at the label's position in the list.
pub open spec fn label_name<L>(labels: Seq<L>, names: Seq<Seq<char>>, l: L) -> Seq<char> {
    names[position(labels, l)]
}

/// The name of a direction.
pub open spec fn dir_name(d: Dir) -> Seq<char> {
    match d {
        Dir::Left => seq!['L'],
        Dir::Right => seq!['R'],
    }
}

/// The separator between the symbols of an edge and its effect.
pub open spec fn arrow() -> Seq<char> {
    seq![' ', '\u{2192}', ' ']
}

/// The names that a description is displayed with.
pub struct Naming {
    pub state_names: Seq<Seq<char>>,
    pub state_descriptions: Seq<Seq<char>>,
    pub symbol_names: Seq<Seq<char>>,
    pub symbol_chars: Seq<char>,
    pub state_clusters: Seq<Option<(Seq<char>, Seq<char>)>>,
}

/// The state's name.
pub open spec fn sname<Spec: TuringMachineSpec>(spec: &Spec, n: Naming, s: Spec::State) -> Seq<char> {
    label_name(spec.spec_states(), n.state_names, s)
}

/// The symbol's name.
pub open spec fn yname<Spec: TuringMachineSpec>(spec: &Spec, n: Naming, y: Spec::Symbol) -> Seq<char> {
    label_name(spec.spec_symbols(), n.symbol_names, y)
}

/// The symbol's display character.
pub open spec fn ychar<Spec: TuringMachineSpec>(spec: &Spec, n: Naming, y: Spec::Symbol) -> char {
    n.symbol_chars[position(spec.spec_symbols(), y)]
}

/// A rule keyed by the names of its state and symbol.
pub open spec fn rule_entry<Spec: TuringMachineSpec>(
    spec: &Spec,
    n: Naming,
    r: Rule<Spec::State, Spec::Symbol>,
) -> (Seq<Seq<char>>, Seq<Seq<char>>) {
    (
        seq![sname(spec, n, r.0), yname(spec, n, r.1)],
        seq![sname(spec, n, r.2), yname(spec, n, r.3), dir_name(r.4)],
    )
}

/// What an edge label says a rule does: the direction alone where the
/// rule keeps the symbol, else the new symbol's character, a comma and
/// the direction.
pub open spec fn effect<Spec: TuringMachineSpec>(
    spec: &Spec,
    n: Naming,
    r: Rule<Spec::State, Spec::Symbol>,
) -> Seq<char> {
    if r.1 == r.3 {
        dir_name(r.4)
    } else {
        seq![ychar(spec, n, r.3), ','] + dir_name(r.4)
    }
}

/// A rule filed under its edge: source, target and effect, with the
/// character of the symbol that triggers it.
pub open spec fn edge_filing<Spec: TuringMachineSpec>(
    spec: &Spec,
    n: Naming,
    r: Rule<Spec::State, Spec::Symbol>,
) -> (Seq<Seq<char>>, Seq<char>) {
    (seq![sname(spec, n, r.0), sname(spec, n, r.2), effect(spec, n, r)], seq![ychar(spec, n, r.1)])
}

/// The rules of a description keyed by name, in order.
pub open spec fn rule_entries<Spec: TuringMachineSpec>(spec: &Spec, n: Naming) -> Seq<
    (Seq<Seq<char>>, Seq<Seq<char>>),
> {
    spec.spec_rules().map_values(|r: Rule<Spec::State, Spec::Symbol>| rule_entry(spec, n, r))
}

/// The rules of a description filed under their edges, in order.
pub open spec fn edge_filings<Spec: TuringMachineSpec>(spec: &Spec, n: Naming) -> Seq<
    (Seq<Seq<char>>, Seq<char>),
> {
    spec.spec_rules().map_values(|r: Rule<Spec::State, Spec::Symbol>| edge_filing(spec, n, r))
}

/// Each symbol's name with its display character, in order.
pub open spec fn symbol_char_entries(n: Naming) -> Seq<(Seq<Seq<char>>, Seq<Seq<char>>)> {
    Seq::new(n.symbol_names.len(), |i: int| (seq![n.symbol_names[i]], seq![seq![n.symbol_chars[i]]]))
}

/// Each state's name with its description, in order.
pub open spec fn state_description_entries(n: Naming) -> Seq<(Seq<Seq<char>>, Seq<Seq<char>>)> {
    Seq::new(n.state_names.len(), |i: int| (seq![n.state_names[i]], seq![n.state_descriptions[i]]))
}

/// Each cluster that a state names, with its label, in the order of the
/// states.
pub open spec fn cluster_entries(n: Naming) -> Seq<(Seq<Seq<char>>, Seq<Seq<char>>)> {
    some_entries(
        n.state_clusters.map_values(
            |c: Option<(Seq<char>, Seq<char>)>|
                match c {
                    Some(p) => Some((seq![p.0], seq![p.1])),
                    None => None,
                },
        ),
    )
}

/// The names of the accepting states, in order.
pub open spec fn accepting_names<Spec: TuringMachineSpec>(spec: &Spec, n: Naming) -> Seq<Seq<char>> {
    some_entries(
        Seq::new(
            spec.spec_states().len(),
            |i: int|
                if spec.spec_accepting(spec.spec_states()[i]) {
                    Some(n.state_names[i])
                } else {
                    None
                },
        ),
    )
}

/// The names given as vectors of strings, characters and clusters.
pub open spec fn naming(
    state_names: Seq<String>,
    state_descriptions: Seq<String>,
    symbol_names: Seq<String>,
    symbol_chars: Seq<char>,
    state_clusters: Seq<Option<(String, String)>>,
) -> Naming {
    Naming {
        state_names: strings_view(state_names),
        state_descriptions: strings_view(state_descriptions),
        symbol_names: strings_view(symbol_names),
        symbol_chars,
        state_clusters: state_clusters.map_values(
            |c: Option<(String, String)>|
                match c {
                    Some(p) => Some((p.0@, p.1@)),
                    None => None,
                },
        ),
    }
}

/// The names fit the description: one of each kind per state or symbol.
pub open spec fn naming_fits<Spec: TuringMachineSpec>(spec: &Spec, n: Naming) -> bool {
    &&& n.state_names.len() == spec.spec_states().len()
    &&& n.state_descriptions.len() == spec.spec_states().len()
    &&& n.state_clusters.len() == spec.spec_states().len()
    &&& n.symbol_names.len() == spec.spec_symbols().len()
    &&& n.symbol_chars.len() == spec.spec_symbols().len()
}

/// The name of a label, looked up by its position in the list.
fn lookup_name<L: Label>(labels: &Vec<L>, names: &Names, l: &L) -> (r: Vec<char>)
    requires
        labels@.contains(*l),
        labels@.no_duplicates(),
        names@.len() == labels@.len(),
    ensures
        r@ == label_name(labels@, names_view(names@), *l),
{
    let i = find_position(labels, l);
    copy_vec(&names[i])
}

/// The name of a direction.
fn dir_chars(d: Dir) -> (r: Vec<char>)
    ensures
        r@ == dir_name(d),
{
    match d {
        Dir::Left => vec!['L'],
        Dir::Right => vec!['R'],
    }
}

/// The inputs of the exported description, in the form the loops read.
struct Tables<S, Y> {
    states: Vec<S>,
    symbols: Vec<Y>,
    sn: Names,
    yn: Names,
    yc: Vec<char>,
}

impl<S: Label, Y: Label> Tables<S, Y> {
    spec fn fits<Spec: TuringMachineSpec<State = S, Symbol = Y>>(&self, spec: &Spec, n: Naming) -> bool {
        &&& spec.inv()
        &&& closed(spec)
        &&& naming_fits(spec, n)
        &&& self.states@ == spec.spec_states()
        &&& self.symbols@ == spec.spec_symbols()
        &&& names_view(self.sn@) == n.state_names
        &&& names_view(self.yn@) == n.symbol_names
        &&& self.yc@ == n.symbol_chars
    }

    fn state_name<Spec: TuringMachineSpec<State = S, Symbol = Y>>(&self, Ghost(spec): Ghost<&Spec>, Ghost(n): Ghost<Naming>, s: &S) -> (r: Vec<char>)
        requires
            self.fits(spec, n),
            spec.spec_states().contains(*s),
        ensures
            r@ == sname(spec, n, *s),
    {
        lookup_name(&self.states, &self.sn, s)
    }

    fn symbol_name<Spec: TuringMachineSpec<State = S, Symbol = Y>>(&self, Ghost(spec): Ghost<&Spec>, Ghost(n): Ghost<Naming>, y: &Y) -> (r: Vec<char>)
        requires
            self.fits(spec, n),
            spec.spec_symbols().contains(*y),
        ensures
            r@ == yname(spec, n, *y),
    {
        lookup_name(&self.symbols, &self.yn, y)
    }

    fn symbol_char<Spec: TuringMachineSpec<State = S, Symbol = Y>>(&self, Ghost(spec): Ghost<&Spec>, Ghost(n): Ghost<Naming>, y: &Y) -> (r: char)
        requires
            self.fits(spec, n),
            spec.spec_symbols().contains(*y),
        ensures
            r == ychar(spec, n, *y),
    {
        let i = find_position(&self.symbols, y);
        self.yc[i]
    }
}

/// The rules of a description keyed by name.
fn rule_entries_of<Spec: TuringMachineSpec>(spec: &Spec, t: &Tables<Spec::State, Spec::Symbol>, Ghost(n): Ghost<Naming>) -> (r: Vec<Entry>)
    requires
        t.fits(spec, n),
    ensures
        entries_view(r@) == rule_entries(spec, n),
{
    let rules = spec.iter_rules();
    let ghost want = rule_entries(spec, n);
    let mut r: Vec<Entry> = Vec::new();
    let mut i: usize = 0;
    while i < rules.len()
        invariant
            t.fits(spec, n),
            rules@ == spec.spec_rules(),
            want == rule_entries(spec, n),
            i <= rules@.len(),
            entries_view(r@) == want.take(i as int),
        decreases rules.len() - i,
    {
        let rule = rules[i];
        assert(spec.spec_rules()[i as int] == rule);
        let a = t.state_name::<Spec>(Ghost(spec), Ghost(n), &rule.0);
        let b = t.symbol_name::<Spec>(Ghost(spec), Ghost(n), &rule.1);
        let c = t.state_name::<Spec>(Ghost(spec), Ghost(n), &rule.2);
        let d = t.symbol_name::<Spec>(Ghost(spec), Ghost(n), &rule.3);
        let e = dir_chars(rule.4);
        let key: Names = vec![a, b];
        let value: Names = vec![c, d, e];
        let ghost before = r@;
        proof {
            assert(names_view(key@) =~= seq![a@, b@]);
            assert(names_view(value@) =~= seq![c@, d@, e@]);
        }
        r.push((key, value));
        assert(entries_view(r@) =~= entries_view(before).push(rule_entry(spec, n, rule)));
        assert(entries_view(r@) =~= want.take(i + 1));
        i = i + 1;
    }
    assert(want.take(i as int) =~= want);
    r
}

/// The rules of a description filed under their edges.
fn edge_filings_of<Spec: TuringMachineSpec>(spec: &Spec, t: &Tables<Spec::State, Spec::Symbol>, Ghost(n): Ghost<Naming>) -> (r: Vec<Filing>)
    requires
        t.fits(spec, n),
    ensures
        filings_view(r@) == edge_filings(spec, n),
{
    let rules = spec.iter_rules();
    let ghost want = edge_filings(spec, n);
    let mut r: Vec<Filing> = Vec::new();
    let mut i: usize = 0;
    while i < rules.len()
        invariant
            t.fits(spec, n),
            rules@ == spec.spec_rules(),
            want == edge_filings(spec, n),
            i <= rules@.len(),
            filings_view(r@) == want.take(i as int),
        decreases rules.len() - i,
    {
        let rule = rules[i];
        assert(spec.spec_rules()[i as int] == rule);
        let a = t.state_name::<Spec>(Ghost(spec), Ghost(n), &rule.0);
        let c = t.state_name::<Spec>(Ghost(spec), Ghost(n), &rule.2);
        let sc = t.symbol_char::<Spec>(Ghost(spec), Ghost(n), &rule.1);
        let dir = dir_chars(rule.4);
        let right = if same_label(&rule.1, &rule.3) {
            dir
        } else {
            let nsc = t.symbol_char::<Spec>(Ghost(spec), Ghost(n), &rule.3);
            let mut x: Vec<char> = vec![nsc, ','];
            append_chars(&mut x, &dir);
            x
        };
        assert(right@ == effect(spec, n, rule));
        let key: Names = vec![a, c, right];
        let name: Vec<char> = vec![sc];
        let ghost before = r@;
        proof {
            assert(names_view(key@) =~= seq![a@, c@, right@]);
            assert(name@ =~= seq![sc]);
        }
        r.push((key, name));
        assert(filings_view(r@) =~= filings_view(before).push(edge_filing(spec, n, rule)));
        assert(filings_view(r@) =~= want.take(i + 1));
        i = i + 1;
    }
    assert(want.take(i as int) =~= want);
    r
}

/// Each symbol's name with its display character.
fn symbol_char_entries_of<S: Label, Y: Label>(t: &Tables<S, Y>, Ghost(n): Ghost<Naming>) -> (r: Vec<Entry>)
    requires
        names_view(t.yn@) == n.symbol_names,
        t.yc@ == n.symbol_chars,
        n.symbol_chars.len() == n.symbol_names.len(),
    ensures
        entries_view(r@) == symbol_char_entries(n),
{
    let ghost want = symbol_char_entries(n);
    let mut r: Vec<Entry> = Vec::new();
    let mut i: usize = 0;
    while i < t.yn.len()
        invariant
            names_view(t.yn@) == n.symbol_names,
            t.yc@ == n.symbol_chars,
            n.symbol_chars.len() == n.symbol_names.len(),
            want == symbol_char_entries(n),
            i <= t.yn@.len(),
            entries_view(r@) == want.take(i as int),
        decreases t.yn.len() - i,
    {
        let a = copy_vec(&t.yn[i]);
        let c = t.yc[i];
        let key: Names = vec![a];
        let cv: Vec<char> = vec![c];
        assert(cv@ =~= seq![c]);
        let value: Names = vec![cv];
        let ghost before = r@;
        proof {
            assert(names_view(key@) =~= seq![a@]);
            assert(names_view(value@) =~= seq![seq![c]]);
        }
        r.push((key, value));
        assert(entries_view(r@) =~= entries_view(before).push(want[i as int]));
        assert(entries_view(r@) =~= want.take(i + 1));
        i = i + 1;
    }
    assert(want.take(i as int) =~= want);
    r
}

/// Each state's name with its description.
fn state_description_entries_of(sn: &Names, sd: &Names, Ghost(n): Ghost<Naming>) -> (r: Vec<Entry>)
    requires
        names_view(sn@) == n.state_names,
        names_view(sd@) == n.state_descriptions,
        n.state_descriptions.len() == n.state_names.len(),
    ensures
        entries_view(r@) == state_description_entries(n),
{
    let ghost want = state_description_entries(n);
    let mut r: Vec<Entry> = Vec::new();
    let mut i: usize = 0;
    while i < sn.len()
        invariant
            names_view(sn@) == n.state_names,
            names_view(sd@) == n.state_descriptions,
            n.state_descriptions.len() == n.state_names.len(),
            want == state_description_entries(n),
            i <= sn@.len(),
            entries_view(r@) == want.take(i as int),
        decreases sn.len() - i,
    {
        let a = copy_vec(&sn[i]);
        let d = copy_vec(&sd[i]);
        let key: Names = vec![a];
        let value: Names = vec![d];
        let ghost before = r@;
        proof {
            assert(names_view(key@) =~= seq![a@]);
            assert(names_view(value@) =~= seq![d@]);
        }
        r.push((key, value));
        assert(entries_view(r@) =~= entries_view(before).push(want[i as int]));
        assert(entries_view(r@) =~= want.take(i + 1));
        i = i + 1;
    }
    assert(want.take(i as int) =~= want);
    r
}

/// The characters of the clusters that the states name.
fn clusters_chars(clusters: &Vec<Option<(String, String)>>) -> (r: Vec<Option<(Vec<char>, Vec<char>)>>)
    ensures
        r@.len() == clusters@.len(),
        forall|i: int|
            0 <= i < r@.len() ==> match #[trigger] clusters@[i] {
                Some(p) => r@[i] is Some && r@[i].unwrap().0@ == p.0@ && r@[i].unwrap().1@ == p.1@,
                None => r@[i] is None,
            },
{
    let mut r: Vec<Option<(Vec<char>, Vec<char>)>> = Vec::new();
    let mut i: usize = 0;
    while i < clusters.len()
        invariant
            i <= clusters@.len(),
            r@.len() == i,
            forall|j: int|
                0 <= j < i ==> match #[trigger] clusters@[j] {
                    Some(p) => r@[j] is Some && r@[j].unwrap().0@ == p.0@ && r@[j].unwrap().1@ == p.1@,
                    None => r@[j] is None,
                },
        decreases clusters.len() - i,
    {
        match &clusters[i] {
            Some(p) => {
                let a = string_chars(&p.0);
                let b = string_chars(&p.1);
                r.push(Some((a, b)));
            },
            None => {
                r.push(None);
            },
        }
        i = i + 1;
    }
    r
}

/// Each cluster that a state names, with its label, in the order of the
/// states.
fn cluster_entries_of(cl: &Vec<Option<(Vec<char>, Vec<char>)>>, Ghost(n): Ghost<Naming>) -> (r: Vec<Entry>)
    requires
        cl@.len() == n.state_clusters.len(),
        forall|i: int|
            0 <= i < cl@.len() ==> match #[trigger] n.state_clusters[i] {
                Some(p) => cl@[i] is Some && cl@[i].unwrap().0@ == p.0 && cl@[i].unwrap().1@ == p.1,
                None => cl@[i] is None,
            },
    ensures
        entries_view(r@) == cluster_entries(n),
{
    let ghost opts = n.state_clusters.map_values(
        |c: Option<(Seq<char>, Seq<char>)>|
            match c {
                Some(p) => Some((seq![p.0], seq![p.1])),
                None => None,
            },
    );
    let mut r: Vec<Entry> = Vec::new();
    let mut i: usize = 0;
    assert(opts.take(0) =~= Seq::empty());
    while i < cl.len()
        invariant
            cl@.len() == n.state_clusters.len(),
            forall|i: int|
                0 <= i < cl@.len() ==> match #[trigger] n.state_clusters[i] {
                    Some(p) => cl@[i] is Some && cl@[i].unwrap().0@ == p.0 && cl@[i].unwrap().1@ == p.1,
                    None => cl@[i] is None,
                },
            opts == n.state_clusters.map_values(
                |c: Option<(Seq<char>, Seq<char>)>|
                    match c {
                        Some(p) => Some((seq![p.0], seq![p.1])),
                        None => None,
                    },
            ),
            i <= cl@.len(),
            entries_view(r@) == some_entries(opts.take(i as int)),
        decreases cl.len() - i,
    {
        assert(opts.take(i + 1).drop_last() =~= opts.take(i as int));
        assert(opts.take(i + 1).last() == opts[i as int]);
        let ghost c = n.state_clusters[i as int];
        match &cl[i] {
            Some(p) => {
                let a = copy_vec(&p.0);
                let b = copy_vec(&p.1);
                let key: Names = vec![a];
                let value: Names = vec![b];
                let ghost before = r@;
                proof {
                    assert(c is Some);
                    assert(names_view(key@) =~= seq![a@]);
                    assert(names_view(value@) =~= seq![b@]);
                }
                r.push((key, value));
                assert(entries_view(r@) =~= entries_view(before).push((seq![a@], seq![b@])));
            },
            None => {
                assert(c is None);
            },
        }
        i = i + 1;
    }
    assert(opts.take(i as int) =~= opts);
    r
}

/// The keys and values of rule entries as names.
pub open spec fn rules_view(v: Seq<(String, String, (String, String, String))>) -> Seq<
    (Seq<Seq<char>>, Seq<Seq<char>>),
> {
    v.map_values(
        |e: (String, String, (String, String, String))|
            (seq![e.0@, e.1@], seq![(e.2).0@, (e.2).1@, (e.2).2@]),
    )
}

/// The keys and values of pairs of strings as names.
pub open spec fn string_pairs_view(v: Seq<(String, String)>) -> Seq<(Seq<Seq<char>>, Seq<Seq<char>>)> {
    v.map_values(|e: (String, String)| (seq![e.0@], seq![e.1@]))
}

/// The ids and labels of clusters as names.
pub open spec fn clusters_view(v: Seq<GraphCluster>) -> Seq<(Seq<Seq<char>>, Seq<Seq<char>>)> {
    v.map_values(|c: GraphCluster| (seq![c.id@], seq![c.label@]))
}

/// The characters of the symbols of an edge, one after another.
pub open spec fn edge_left(e: GraphEdge) -> Seq<char> {
    strings_view(e.symbols@).flatten()
}

/// What an edge's label says its rules do: what follows the symbols and
/// the arrow.
pub open spec fn edge_effect(e: GraphEdge) -> Seq<char> {
    e.label@.skip(edge_left(e).len() + 3int)
}

/// The key (source, target, effect) and the symbols of each edge.
pub open spec fn edges_view(v: Seq<GraphEdge>) -> Seq<(Seq<Seq<char>>, Seq<Seq<char>>)> {
    v.map_values(|e: GraphEdge| (seq![e.source@, e.target@, edge_effect(e)], strings_view(e.symbols@)))
}

/// An edge's label is its symbols, an arrow and its effect; its id is its
/// source, two dashes and its symbols.
pub open spec fn edge_labelled(e: GraphEdge) -> bool {
    &&& e.label@ == edge_left(e) + arrow() + edge_effect(e)
    &&& e.id@ == e.source@ + seq!['-', '-'] + edge_left(e)
}

/// Every pair of a list has a key of `k` names and a value of `v` names.
pub open spec fn shaped(pairs: Seq<(Seq<Seq<char>>, Seq<Seq<char>>)>, k: nat, v: nat) -> bool {
    forall|i: int| 0 <= i < pairs.len() ==> (#[trigger] pairs[i]).0.len() == k && pairs[i].1.len() == v
}

/// The rule entries as strings.
fn rules_strings(entries: &Vec<Entry>) -> (r: Vec<(String, String, (String, String, String))>)
    requires
        shaped(entries_view(entries@), 2, 3),
    ensures
        rules_view(r@) == entries_view(entries@),
{
    let ghost ev = entries_view(entries@);
    let mut r: Vec<(String, String, (String, String, String))> = Vec::new();
    let mut i: usize = 0;
    while i < entries.len()
        invariant
            ev == entries_view(entries@),
            shaped(ev, 2, 3),
            i <= entries@.len(),
            rules_view(r@) == ev.take(i as int),
        decreases entries.len() - i,
    {
        let e = &entries[i];
        assert(ev[i as int] == (names_view(e.0@), names_view(e.1@)));
        assert(ev[i as int].0.len() == 2);
        let x = (
            chars_string(&e.0[0]),
            chars_string(&e.0[1]),
            (chars_string(&e.1[0]), chars_string(&e.1[1]), chars_string(&e.1[2])),
        );
        let ghost before = r@;
        r.push(x);
        proof {
            assert(seq![x.0@, x.1@] =~= names_view(e.0@));
            assert(seq![(x.2).0@, (x.2).1@, (x.2).2@] =~= names_view(e.1@));
            assert(rules_view(r@) =~= rules_view(before).push(ev[i as int]));
            assert(rules_view(r@) =~= ev.take(i + 1));
        }
        i = i + 1;
    }
    assert(ev.take(i as int) =~= ev);
    r
}

/// Entries of one name each way as pairs of strings.
fn string_pairs(entries: &Vec<Entry>) -> (r: Vec<(String, String)>)
    requires
        shaped(entries_view(entries@), 1, 1),
    ensures
        string_pairs_view(r@) == entries_view(entries@),
{
    let ghost ev = entries_view(entries@);
    let mut r: Vec<(String, String)> = Vec::new();
    let mut i: usize = 0;
    while i < entries.len()
        invariant
            ev == entries_view(entries@),
            shaped(ev, 1, 1),
            i <= entries@.len(),
            string_pairs_view(r@) == ev.take(i as int),
        decreases entries.len() - i,
    {
        let e = &entries[i];
        assert(ev[i as int] == (names_view(e.0@), names_view(e.1@)));
        assert(ev[i as int].0.len() == 1);
        let x = (chars_string(&e.0[0]), chars_string(&e.1[0]));
        let ghost before = r@;
        r.push(x);
        proof {
            assert(seq![x.0@] =~= names_view(e.0@));
            assert(seq![x.1@] =~= names_view(e.1@));
            assert(string_pairs_view(r@) =~= string_pairs_view(before).push(ev[i as int]));
            assert(string_pairs_view(r@) =~= ev.take(i + 1));
        }
        i = i + 1;
    }
    assert(ev.take(i as int) =~= ev);
    r
}

/// Cluster entries as clusters.
fn clusters_of(entries: &Vec<Entry>) -> (r: Vec<GraphCluster>)
    requires
        shaped(entries_view(entries@), 1, 1),
    ensures
        clusters_view(r@) == entries_view(entries@),
{
    let ghost ev = entries_view(entries@);
    let mut r: Vec<GraphCluster> = Vec::new();
    let mut i: usize = 0;
    while i < entries.len()
        invariant
            ev == entries_view(entries@),
            shaped(ev, 1, 1),
            i <= entries@.len(),
            clusters_view(r@) == ev.take(i as int),
        decreases entries.len() - i,
    {
        let e = &entries[i];
        assert(ev[i as int] == (names_view(e.0@), names_view(e.1@)));
        assert(ev[i as int].0.len() == 1);
        let x = GraphCluster { id: chars_string(&e.0[0]), label: chars_string(&e.1[0]) };
        let ghost before = r@;
        r.push(x);
        proof {
            assert(seq![x.id@] =~= names_view(e.0@));
            assert(seq![x.label@] =~= names_view(e.1@));
            assert(clusters_view(r@) =~= clusters_view(before).push(ev[i as int]));
            assert(clusters_view(r@) =~= ev.take(i + 1));
        }
        i = i + 1;
    }
    assert(ev.take(i as int) =~= ev);
    r
}

/// Edge groups as labelled edges.
fn edges_of(entries: &Vec<Entry>) -> (r: Vec<GraphEdge>)
    requires
        forall|i: int| 0 <= i < entries@.len() ==> (#[trigger] entries_view(entries@)[i]).0.len() == 3,
    ensures
        edges_view(r@) == entries_view(entries@),
        forall|i: int| 0 <= i < r@.len() ==> edge_labelled(#[trigger] r@[i]),
{
    let ghost ev = entries_view(entries@);
    let mut r: Vec<GraphEdge> = Vec::new();
    let mut i: usize = 0;
    while i < entries.len()
        invariant
            ev == entries_view(entries@),
            forall|i: int| 0 <= i < entries@.len() ==> (#[trigger] ev[i]).0.len() == 3,
            i <= entries@.len(),
            edges_view(r@) == ev.take(i as int),
            forall|j: int| 0 <= j < r@.len() ==> edge_labelled(#[trigger] r@[j]),
        decreases entries.len() - i,
    {
        let e = &entries[i];
        assert(ev[i as int] == (names_view(e.0@), names_view(e.1@)));
        assert(ev[i as int].0.len() == 3);
        let left = concat_names(&e.1);
        let source = chars_string(&e.0[0]);
        let target = chars_string(&e.0[1]);
        let mut label_chars = copy_vec(&left);
        let arrow_chars: Vec<char> = vec![' ', '\u{2192}', ' '];
        append_chars(&mut label_chars, &arrow_chars);
        append_chars(&mut label_chars, &e.0[2]);
        let mut id_chars = copy_vec(&e.0[0]);
        let dashes: Vec<char> = vec!['-', '-'];
        append_chars(&mut id_chars, &dashes);
        append_chars(&mut id_chars, &left);
        let symbols = names_strings(&e.1);
        let x = GraphEdge {
            id: chars_string(&id_chars),
            source,
            target,
            label: chars_string(&label_chars),
            symbols,
        };
        let ghost before = r@;
        r.push(x);
        proof {
            assert(arrow_chars@ =~= arrow());
            assert(dashes@ =~= seq!['-', '-']);
            assert(edge_left(x) == left@);
            assert(x.label@ =~= left@ + arrow() + e.0@[2]@);
            assert(edge_effect(x) =~= e.0@[2]@);
            assert(edge_labelled(x));
            assert(seq![x.source@, x.target@, edge_effect(x)] =~= names_view(e.0@));
            assert(edges_view(r@) =~= edges_view(before).push(ev[i as int]));
            assert(edges_view(r@) =~= ev.take(i + 1));
        }
        i = i + 1;
    }
    assert(ev.take(i as int) =~= ev);
    r
}

proof fn lemma_upsert_shaped(
    ev: Seq<(Seq<Seq<char>>, Seq<Seq<char>>)>,
    pairs: Seq<(Seq<Seq<char>>, Seq<Seq<char>>)>,
    k: nat,
    v: nat,
)
    requires
        represents(ev, fold_upsert(pairs)),
        shaped(pairs, k, v),
    ensures
        shaped(ev, k, v),
{
    assert forall|i: int| 0 <= i < ev.len() implies (#[trigger] ev[i]).0.len() == k && ev[i].1.len() == v by {
        lemma_fold_upsert_from(pairs, ev[i].0);
        let j = choose|j: int| 0 <= j < pairs.len() && pairs[j] == (ev[i].0, fold_upsert(pairs)[ev[i].0]);
        assert(pairs[j] == ev[i]);
    }
}

proof fn lemma_first_shaped(
    ev: Seq<(Seq<Seq<char>>, Seq<Seq<char>>)>,
    pairs: Seq<(Seq<Seq<char>>, Seq<Seq<char>>)>,
    k: nat,
    v: nat,
)
    requires
        represents(ev, fold_first(pairs)),
        shaped(pairs, k, v),
    ensures
        shaped(ev, k, v),
{
    assert forall|i: int| 0 <= i < ev.len() implies (#[trigger] ev[i]).0.len() == k && ev[i].1.len() == v by {
        lemma_fold_first_from(pairs, ev[i].0);
        let j = choose|j: int| 0 <= j < pairs.len() && pairs[j] == (ev[i].0, fold_first(pairs)[ev[i].0]);
        assert(pairs[j] == ev[i]);
    }
}

proof fn lemma_append_keys(ev: Seq<(Seq<Seq<char>>, Seq<Seq<char>>)>, pairs: Seq<(Seq<Seq<char>>, Seq<char>)>)
    requires
        represents(ev, fold_append(pairs)),
        forall|i: int| 0 <= i < pairs.len() ==> (#[trigger] pairs[i]).0.len() == 3,
    ensures
        forall|i: int| 0 <= i < ev.len() ==> (#[trigger] ev[i]).0.len() == 3,
{
    assert forall|i: int| 0 <= i < ev.len() implies (#[trigger] ev[i]).0.len() == 3 by {
        lemma_fold_append_from(pairs, ev[i].0);
        let j = choose|j: int| 0 <= j < pairs.len() && pairs[j].0 == ev[i].0;
        assert(pairs[j].0 == ev[i].0);
    }
}

/// The names of the accepting states, in order.
fn accepting_strings<Spec: TuringMachineSpec>(spec: &Spec, t: &Tables<Spec::State, Spec::Symbol>, Ghost(n): Ghost<Naming>) -> (r: Vec<String>)
    requires
        t.fits(spec, n),
    ensures
        strings_view(r@) == accepting_names(spec, n),
{
    let ghost opts = Seq::new(
        spec.spec_states().len(),
        |i: int|
            if spec.spec_accepting(spec.spec_states()[i]) {
                Some(n.state_names[i])
            } else {
                None
            },
    );
    let mut r: Vec<String> = Vec::new();
    let mut i: usize = 0;
    assert(opts.take(0) =~= Seq::empty());
    while i < t.states.len()
        invariant
            t.fits(spec, n),
            opts == Seq::new(
                spec.spec_states().len(),
                |i: int|
                    if spec.spec_accepting(spec.spec_states()[i]) {
                        Some(n.state_names[i])
                    } else {
                        None
                    },
            ),
            i <= t.states@.len(),
            strings_view(r@) == some_entries(opts.take(i as int)),
        decreases t.states.len() - i,
    {
        assert(opts.take(i + 1).drop_last() =~= opts.take(i as int));
        assert(opts.take(i + 1).last() == opts[i as int]);
        if spec.is_accepting(t.states[i]) {
            let x = chars_string(&t.sn[i]);
            let ghost before = r@;
            r.push(x);
            assert(strings_view(r@) =~= strings_view(before).push(x@));
        }
        i = i + 1;
    }
    assert(opts.take(i as int) =~= opts);
    r
}

/// One node per state, in order.
fn nodes_of(sn: &Names, cl: &Vec<Option<(Vec<char>, Vec<char>)>>) -> (r: Vec<GraphNode>)
    requires
        cl@.len() == sn@.len(),
    ensures
        r@.len() == sn@.len(),
        forall|i: int|
            0 <= i < r@.len() ==> {
                &&& (#[trigger] r@[i]).id@ == sn@[i]@
                &&& r@[i].label@ == sn@[i]@
                &&& (r@[i].cluster is Some) == (cl@[i] is Some)
                &&& r@[i].cluster is Some ==> r@[i].cluster.unwrap()@ == cl@[i].unwrap().0@
            },
{
    let mut r: Vec<GraphNode> = Vec::new();
    let mut i: usize = 0;
    while i < sn.len()
        invariant
            cl@.len() == sn@.len(),
            i <= sn@.len(),
            r@.len() == i,
            forall|j: int|
                0 <= j < i ==> {
                    &&& (#[trigger] r@[j]).id@ == sn@[j]@
                    &&& r@[j].label@ == sn@[j]@
                    &&& (r@[j].cluster is Some) == (cl@[j] is Some)
                    &&& r@[j].cluster is Some ==> r@[j].cluster.unwrap()@ == cl@[j].unwrap().0@
                },
        decreases sn.len() - i,
    {
        let cluster = match &cl[i] {
            Some(p) => Some(chars_string(&p.0)),
            None => None,
        };
        r.push(GraphNode { id: chars_string(&sn[i]), label: chars_string(&sn[i]), cluster });
        i = i + 1;
    }
    r
}

/// What the exported description holds: the names as given; the rules,
/// the symbols' characters and the states' descriptions keyed by name
/// (where two entries share a name, the later one stays); one node per
/// state; the clusters keyed by id (where two share an id, the label of
/// the first stays); and one edge per source, target and effect, with the
/// characters of the symbols of its rules in order.
pub open spec fn exported<Spec: TuringMachineSpec>(
    spec: &Spec,
    n: Naming,
    name: Seq<char>,
    description: Seq<char>,
    r: JsonTuringMachineSpec,
) -> bool {
    &&& r.name@ == name
    &&& r.description@ == description
    &&& strings_view(r.all_states@) == n.state_names
    &&& strings_view(r.all_symbols@) == n.symbol_names
    &&& r.initial@ == sname(spec, n, spec.spec_initial())
    &&& r.blank@ == yname(spec, n, spec.spec_blank())
    &&& strings_view(r.accepting_states@) == accepting_names(spec, n)
    &&& represents(rules_view(r.rules@), fold_upsert(rule_entries(spec, n)))
    &&& represents(string_pairs_view(r.symbol_chars@), fold_upsert(symbol_char_entries(n)))
    &&& represents(string_pairs_view(r.state_descriptions@), fold_upsert(state_description_entries(n)))
    &&& r.graph.nodes@.len() == n.state_names.len()
    &&& forall|i: int|
        0 <= i < r.graph.nodes@.len() ==> {
            &&& (#[trigger] r.graph.nodes@[i]).id@ == n.state_names[i]
            &&& r.graph.nodes@[i].label@ == n.state_names[i]
            &&& match n.state_clusters[i] {
                Some(c) => r.graph.nodes@[i].cluster is Some && r.graph.nodes@[i].cluster.unwrap()@ == c.0,
                None => r.graph.nodes@[i].cluster is None,
            }
        }
    &&& represents(clusters_view(r.graph.clusters@), fold_first(cluster_entries(n)))
    &&& represents(edges_view(r.graph.edges@), fold_append(edge_filings(spec, n)))
    &&& forall|i: int| 0 <= i < r.graph.edges@.len() ==> edge_labelled(#[trigger] r.graph.edges@[i])
}

/// Lays a description out for display, with the states grouped into the
/// given clusters.  The vectors give, for each state of
/// `spec.iter_states()` in order, its name, its description and its
/// cluster (id and label), and for each symbol of `spec.iter_symbols()`
/// its name and display character.
pub fn export_spec_with_clusters<Spec: TuringMachineSpec>(
    spec: &Spec,
    name: &str,
    description: &str,
    state_names: &Vec<String>,
    state_descriptions: &Vec<String>,
    symbol_names: &Vec<String>,
    symbol_chars: &Vec<char>,
    state_clusters: &Vec<Option<(String, String)>>,
) -> (r: JsonTuringMachineSpec)
    requires
        spec.inv(),
        closed(spec),
        naming_fits(
            spec,
            naming(state_names@, state_descriptions@, symbol_names@, symbol_chars@, state_clusters@),
        ),
    ensures
        exported(
            spec,
            naming(state_names@, state_descriptions@, symbol_names@, symbol_chars@, state_clusters@),
            name@,
            description@,
            r,
        ),
{
    let ghost n = naming(state_names@, state_descriptions@, symbol_names@, symbol_chars@, state_clusters@);
    let t = Tables {
        states: spec.iter_states(),
        symbols: spec.iter_symbols(),
        sn: strings_chars(state_names),
        yn: strings_chars(symbol_names),
        yc: copy_vec(symbol_chars),
    };
    let sd = strings_chars(state_descriptions);
    let cl = clusters_chars(state_clusters);
    assert(t.fits(spec, n));

    let all_states = names_strings(&t.sn);
    let all_symbols = names_strings(&t.yn);
    let init = spec.initial();
    let initial = chars_string(&t.state_name::<Spec>(Ghost(spec), Ghost(n), &init));
    let bl = spec.blank();
    let blank = chars_string(&t.symbol_name::<Spec>(Ghost(spec), Ghost(n), &bl));
    let accepting_states = accepting_strings(spec, &t, Ghost(n));

    let rule_list = rule_entries_of(spec, &t, Ghost(n));
    let rule_map = build_upsert(&rule_list);
    proof {
        assert(shaped(rule_entries(spec, n), 2, 3));
        lemma_upsert_shaped(entries_view(rule_map@), rule_entries(spec, n), 2, 3);
    }
    let rules = rules_strings(&rule_map);

    let char_list = symbol_char_entries_of(&t, Ghost(n));
    let char_map = build_upsert(&char_list);
    proof {
        assert(shaped(symbol_char_entries(n), 1, 1));
        lemma_upsert_shaped(entries_view(char_map@), symbol_char_entries(n), 1, 1);
    }
    let symbol_chars_out = string_pairs(&char_map);

    let desc_list = state_description_entries_of(&t.sn, &sd, Ghost(n));
    let desc_map = build_upsert(&desc_list);
    proof {
        assert(shaped(state_description_entries(n), 1, 1));
        lemma_upsert_shaped(entries_view(desc_map@), state_description_entries(n), 1, 1);
    }
    let state_descriptions_out = string_pairs(&desc_map);

    proof {
        assert forall|i: int| 0 <= i < cl@.len() implies match #[trigger] n.state_clusters[i] {
            Some(p) => cl@[i] is Some && cl@[i].unwrap().0@ == p.0 && cl@[i].unwrap().1@ == p.1,
            None => cl@[i] is None,
        } by {
            assert(n.state_clusters[i] == match state_clusters@[i] {
                Some(p) => Some((p.0@, p.1@)),
                None => None,
            });
        }
    }
    let nodes = nodes_of(&t.sn, &cl);
    let cluster_list = cluster_entries_of(&cl, Ghost(n));
    let cluster_map = build_first(&cluster_list);
    proof {
        let opts = n.state_clusters.map_values(
            |c: Option<(Seq<char>, Seq<char>)>|
                match c {
                    Some(p) => Some((seq![p.0], seq![p.1])),
                    None => None,
                },
        );
        assert forall|i: int| 0 <= i < cluster_entries(n).len() implies (#[trigger] cluster_entries(n)[i]).0.len() == 1
            && cluster_entries(n)[i].1.len() == 1 by {
            crate::tm::lemma_some_entries_sound(opts, i);
        }
        lemma_first_shaped(entries_view(cluster_map@), cluster_entries(n), 1, 1);
    }
    let clusters = clusters_of(&cluster_map);

    let filings = edge_filings_of(spec, &t, Ghost(n));
    let groups = build_append(&filings);
    proof {
        lemma_append_keys(entries_view(groups@), edge_filings(spec, n));
    }
    let edges = edges_of(&groups);

    let r = JsonTuringMachineSpec {
        name: String::from_str(name),
        description: String::from_str(description),
        all_states,
        all_symbols,
        initial,
        accepting_states,
        blank,
        rules,
        symbol_chars: symbol_chars_out,
        state_descriptions: state_descriptions_out,
        graph: GraphSpec { nodes, edges, clusters },
    };
    proof {
        assert forall|i: int| 0 <= i < r.graph.nodes@.len() implies {
            &&& (#[trigger] r.graph.nodes@[i]).id@ == n.state_names[i]
            &&& r.graph.nodes@[i].label@ == n.state_names[i]
            &&& match n.state_clusters[i] {
                Some(c) => r.graph.nodes@[i].cluster is Some && r.graph.nodes@[i].cluster.unwrap()@ == c.0,
                None => r.graph.nodes@[i].cluster is None,
            }
        } by {
            assert(names_view(t.sn@)[i] == t.sn@[i]@);
            assert(match n.state_clusters[i] {
                Some(p) => cl@[i] is Some && cl@[i].unwrap().0@ == p.0 && cl@[i].unwrap().1@ == p.1,
                None => cl@[i] is None,
            });
        }
    }
    r
}

/// Lays a description out for display, no state in a cluster.
pub fn export_spec<Spec: TuringMachineSpec>(
    spec: &Spec,
    name: &str,
    description: &str,
    state_names: &Vec<String>,
    state_descriptions: &Vec<String>,
    symbol_names: &Vec<String>,
    symbol_chars: &Vec<char>,
) -> (r: JsonTuringMachineSpec)
    requires
        spec.inv(),
        closed(spec),
        state_names@.len() == spec.spec_states().len(),
        state_descriptions@.len() == spec.spec_states().len(),
        symbol_names@.len() == spec.spec_symbols().len(),
        symbol_chars@.len() == spec.spec_symbols().len(),
    ensures
        exported(
            spec,
            naming(
                state_names@,
                state_descriptions@,
                symbol_names@,
                symbol_chars@,
                Seq::new(state_names@.len(), |i: int| None),
            ),
            name@,
            description@,
            r,
        ),
{
    let mut clusters: Vec<Option<(String, String)>> = Vec::new();
    let mut i: usize = 0;
    while i < state_names.len()
        invariant
            i <= state_names@.len(),
            clusters@ == Seq::new(i as nat, |j: int| None::<(String, String)>),
        decreases state_names.len() - i,
    {
        clusters.push(None);
        assert(clusters@ =~= Seq::new((i + 1) as nat, |j: int| None::<(String, String)>));
        i = i + 1;
    }
    proof {
        let n = naming(state_names@, state_descriptions@, symbol_names@, symbol_chars@, clusters@);
        assert(n.state_names.len() == state_names@.len());
        assert(n.state_descriptions.len() == state_descriptions@.len());
        assert(n.symbol_names.len() == symbol_names@.len());
    }
    export_spec_with_clusters(
        spec,
        name,
        description,
        state_names,
        state_descriptions,
        symbol_names,
        symbol_chars,
        &clusters,
    )
}

} // verus!
