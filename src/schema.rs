use vstd::prelude::*;

verus! {

broadcast use vstd::std_specs::vec::group_vec_axioms;

/// Primitive type tags of schema leaves.
#[derive(Debug, Clone, Copy, PartialEq, Eq)]
pub enum FieldType {
    StringType,
}

/// The shape of a record: a typed leaf, or a named group of nested shapes.
pub enum Schema {
    Simple(FieldType),
    Complex(Vec<(String, Schema)>),
}

/// The names of `entries` are pairwise distinct.
pub open spec fn names_distinct(entries: Seq<(String, Schema)>) -> bool {
    forall|i: int, j: int|
        0 <= i < j < entries.len() ==> #[trigger] entries[i].0@ != #[trigger] entries[j].0@
}

impl Schema {
    /// A group of named shapes; `None` where two entries share a name.
    pub fn complex(entries: Vec<(String, Schema)>) -> (r: Option<Schema>)
        ensures
            r is Some <==> names_distinct(entries@),
            r matches Some(s) ==> s == Schema::Complex(entries),
    {
        let mut i: usize = 0;
        while i < entries.len()
            invariant
                i <= entries.len(),
                forall|a: int, b: int|
                    0 <= a < b < entries@.len() && a < i ==> #[trigger] entries@[a].0@
                        != #[trigger] entries@[b].0@,
            decreases entries.len() - i,
        {
            let mut j: usize = i + 1;
            while j < entries.len()
                invariant
                    i < entries.len(),
                    i + 1 <= j <= entries.len(),
                    forall|a: int, b: int|
                        0 <= a < b < entries@.len() && a < i ==> #[trigger] entries@[a].0@
                            != #[trigger] entries@[b].0@,
                    forall|b: int| i < b < j ==> entries@[i as int].0@ != #[trigger] entries@[b].0@,
                decreases entries.len() - j,
            {
                if entries[i].0 == entries[j].0 {
                    return None;
                }
                j = j + 1;
            }
            i = i + 1;
        }
        Some(Schema::Complex(entries))
    }
}

/// The path of a child named `name` below `prefix`.
pub open spec fn child_path(prefix: Seq<char>, name: Seq<char>) -> Seq<char> {
    if prefix.len() == 0 {
        name
    } else {
        prefix + seq!['.'] + name
    }
}

/// The leaf paths of `schema` below `prefix`, in the order of its entries.
pub open spec fn leaf_paths(schema: Schema, prefix: Seq<char>) -> Seq<Seq<char>>
    decreases schema, 0nat,
{
    match schema {
        Schema::Simple(_) => seq![prefix],
        Schema::Complex(entries) => entry_paths(entries@, prefix, entries@.len() as nat),
    }
}

/// The leaf paths of the first `n` entries of a group below `prefix`.
pub open spec fn entry_paths(entries: Seq<(String, Schema)>, prefix: Seq<char>, n: nat) -> Seq<
    Seq<char>,
>
    decreases entries, n,
{
    if n == 0 || n > entries.len() {
        Seq::empty()
    } else {
        entry_paths(entries, prefix, (n - 1) as nat) + leaf_paths(
            entries[n - 1].1,
            child_path(prefix, entries[n - 1].0@),
        )
    }
}

proof fn lemma_entry_decreases(s: Schema, i: int)
    requires
        s is Complex,
        0 <= i < s->Complex_0.len(),
    ensures
        decreases_to!(s => s->Complex_0@[i].1),
{
    let v = s->Complex_0;
    let e = v@[i];
    assert(decreases_to!(s => s->Complex_0));
    assert(decreases_to!(v => v@));
    assert(decreases_to!(v@ => v@[i]));
    assert(decreases_to!(e => e.1));
}

/// The path of a child named `name` below `prefix`.
pub fn join_path(prefix: &String, name: &String) -> (r: String)
    ensures
        r@ == child_path(prefix@, name@),
{
    if prefix.as_str().is_empty() {
        name.clone()
    } else {
        let dotted = prefix.clone().concat(".");
        proof {
            reveal_strlit(".");
        }
        dotted.concat(name.as_str())
    }
}

/// Every leaf path of `schema` below `prefix`, in the order of its entries.
/// A group's children are named `prefix.name`, or `name` where the prefix is
/// empty; a leaf yields the prefix itself.
pub fn flatten(schema: &Schema, prefix: &String) -> (r: Vec<String>)
    ensures
        r.deep_view() == leaf_paths(*schema, prefix@),
    decreases schema,
{
    match schema {
        Schema::Simple(_) => {
            let mut r: Vec<String> = Vec::new();
            r.push(prefix.clone());
            proof {
                assert(r.deep_view() =~= seq![prefix@]);
            }
            r
        },
        Schema::Complex(entries) => {
            let mut r: Vec<String> = Vec::new();
            let mut i: usize = 0;
            while i < entries.len()
                invariant
                    i <= entries.len(),
                    *schema == Schema::Complex(*entries),
                    r.deep_view() == entry_paths(entries@, prefix@, i as nat),
                decreases entries.len() - i,
            {
                let child = join_path(prefix, &entries[i].0);
                proof {
                    lemma_entry_decreases(*schema, i as int);
                }
                let mut sub = flatten(&entries[i].1, &child);
                let ghost before = r.deep_view();
                let ghost added = sub.deep_view();
                r.append(&mut sub);
                proof {
                    assert(r.deep_view() =~= before + added);
                }
                i = i + 1;
            }
            r
        },
    }
}

} // verus!
