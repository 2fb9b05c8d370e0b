//! The environment: named constants and the functions that may be called.
use vstd::prelude::*;
use crate::number::Number;

verus! {

/// The mapping that a list of definitions stands for: a later definition of
/// a name replaces an earlier one.
pub open spec fn table<V>(entries: Seq<(String, V)>) -> Map<Seq<char>, V>
    decreases entries.len(),
{
    if entries.len() == 0 {
        Map::empty()
    } else {
        table(entries.drop_last()).insert(entries.last().0@, entries.last().1)
    }
}

/// What a name is bound to in `entries`, if anything.
pub open spec fn bound<V>(entries: Seq<(String, V)>, name: Seq<char>) -> Option<V> {
    if table(entries).contains_key(name) {
        Some(table(entries)[name])
    } else {
        None
    }
}

/// A name that no definition from index `from` on gives is bound as it is
/// in the definitions before `from`.
proof fn lemma_table_prefix<V>(entries: Seq<(String, V)>, name: Seq<char>, from: int)
    requires
        0 <= from <= entries.len(),
        forall|j: int| from <= j < entries.len() ==> (#[trigger] entries[j]).0@ != name,
    ensures
        bound(entries, name) == bound(entries.take(from), name),
    decreases entries.len() - from,
{
    if from == entries.len() {
        assert(entries.take(from) =~= entries);
    } else {
        let shorter = entries.drop_last();
        assert(entries.last() == entries[entries.len() - 1]);
        assert forall|j: int| from <= j < shorter.len() implies (#[trigger] shorter[j]).0@
            != name by {
            assert(shorter[j] == entries[j]);
        }
        lemma_table_prefix(shorter, name, from);
        assert(shorter.take(from) =~= entries.take(from));
    }
}

/// The last definition of a name is the one that counts.
proof fn lemma_table_last<V>(entries: Seq<(String, V)>, name: Seq<char>, at: int)
    requires
        0 <= at < entries.len(),
        entries[at].0@ == name,
        forall|j: int| at < j < entries.len() ==> (#[trigger] entries[j]).0@ != name,
    ensures
        bound(entries, name) == Some(entries[at].1),
{
    lemma_table_prefix(entries, name, at + 1);
    let upto = entries.take(at + 1);
    assert(upto.last() == entries[at]);
}

/// Looks a name up in a list of definitions.
fn find<V: Copy>(entries: &Vec<(String, V)>, name: &String) -> (r: Option<V>)
    ensures
        r == bound(entries@, name@),
{
    let mut i: usize = entries.len();
    while i > 0
        invariant
            i <= entries.len(),
            forall|j: int| i <= j < entries.len() ==> (#[trigger] entries@[j]).0@ != name@,
        decreases i,
    {
        i -= 1;
        if entries[i].0 == *name {
            proof {
                lemma_table_last(entries@, name@, i as int);
            }
            return Some(entries[i].1);
        }
    }
    proof {
        lemma_table_prefix(entries@, name@, 0);
        assert(entries@.take(0) =~= Seq::empty());
    }
    None
}

/// The bit pattern of the binary64 value nearest to the circle constant.
pub const PI_BITS: u64 = 0x4009_21FB_5444_2D18;

/// The bit pattern of the binary64 value nearest to Euler's number.
pub const E_BITS: u64 = 0x4005_BF0A_8B14_5769;

/// Named constants, and the names and arities of the functions that an
/// expression may call.  Evaluation only reads it.
pub struct Environment {
    constants: Vec<(String, Number)>,
    functions: Vec<(String, usize)>,
}

/// The mathematical content of an [`Environment`]: two finite mappings.
pub struct EnvironmentView {
    /// From a constant's name to its value.
    pub constants: Map<Seq<char>, Number>,
    /// From a function's name to the number of arguments it takes.
    pub functions: Map<Seq<char>, usize>,
}

impl View for Environment {
    type V = EnvironmentView;

    closed spec fn view(&self) -> EnvironmentView {
        EnvironmentView { constants: table(self.constants@), functions: table(self.functions@) }
    }
}

/// The functions of one argument in the standard environment.
pub open spec fn standard_unary_names() -> Seq<Seq<char>> {
    seq![
        "sqrt"@,
        "abs"@,
        "exp"@,
        "ln"@,
        "sin"@,
        "cos"@,
        "tan"@,
        "asin"@,
        "acos"@,
        "atan"@,
        "sinh"@,
        "cosh"@,
        "tanh"@,
        "asinh"@,
        "acosh"@,
        "atanh"@,
        "floor"@,
        "ceil"@,
        "round"@,
        "signum"@,
    ]
}

/// The functions of two arguments in the standard environment.
pub open spec fn standard_binary_names() -> Seq<Seq<char>> {
    seq!["atan2"@, "max"@, "min"@]
}

/// `functions` with every name in `names[..count]` bound to `arity`.
pub open spec fn with_arity(
    functions: Map<Seq<char>, usize>,
    names: Seq<Seq<char>>,
    count: nat,
    arity: usize,
) -> Map<Seq<char>, usize>
    decreases count,
{
    if count == 0 {
        functions
    } else {
        with_arity(functions, names, (count - 1) as nat, arity).insert(
            names[count - 1],
            arity,
        )
    }
}

/// The standard environment: the constants `pi` and `e`, twenty functions
/// of one argument and three of two.
pub open spec fn standard_view() -> EnvironmentView {
    EnvironmentView {
        constants: Map::empty().insert("pi"@, Number { bits: PI_BITS }).insert(
            "e"@,
            Number { bits: E_BITS },
        ),
        functions: with_arity(
            with_arity(Map::empty(), standard_unary_names(), 20, 1),
            standard_binary_names(),
            3,
            2,
        ),
    }
}

impl Environment {
    /// An environment that defines nothing.
    pub fn new() -> (env: Environment)
        ensures
            env@.constants == Map::<Seq<char>, Number>::empty(),
            env@.functions == Map::<Seq<char>, usize>::empty(),
    {
        Environment { constants: Vec::new(), functions: Vec::new() }
    }

    /// Binds `name` to `value`, replacing what it was bound to.
    pub fn define_constant(&mut self, name: &str, value: Number)
        ensures
            final(self)@.constants == old(self)@.constants.insert(name@, value),
            final(self)@.functions == old(self)@.functions,
    {
        let ghost before = self.constants@;
        self.constants.push((name.to_owned(), value));
        proof {
            assert(self.constants@.drop_last() =~= before);
        }
    }

    /// Declares the function `name` with `arity` arguments, replacing an
    /// earlier declaration of that name.
    pub fn define_function(&mut self, name: &str, arity: usize)
        ensures
            final(self)@.functions == old(self)@.functions.insert(name@, arity),
            final(self)@.constants == old(self)@.constants,
    {
        let ghost before = self.functions@;
        self.functions.push((name.to_owned(), arity));
        proof {
            assert(self.functions@.drop_last() =~= before);
        }
    }

    /// The value of the constant `name`, if it is defined.
    pub fn constant(&self, name: &String) -> (value: Option<Number>)
        ensures
            value == (if self@.constants.contains_key(name@) {
                Some(self@.constants[name@])
            } else {
                None
            }),
    {
        find(&self.constants, name)
    }

    /// The number of arguments of the function `name`, if it is declared.
    pub fn arity(&self, name: &String) -> (arity: Option<usize>)
        ensures
            arity == (if self@.functions.contains_key(name@) {
                Some(self@.functions[name@])
            } else {
                None
            }),
    {
        find(&self.functions, name)
    }

    /// The standard environment.
    pub fn standard() -> (env: Environment)
        ensures
            env@ == standard_view(),
    {
        let mut env = Environment::new();
        env.define_constant("pi", Number { bits: PI_BITS });
        env.define_constant("e", Number { bits: E_BITS });
        proof {
            reveal_with_fuel(with_arity, 21);
        }
        env.define_function("sqrt", 1);
        env.define_function("abs", 1);
        env.define_function("exp", 1);
        env.define_function("ln", 1);
        env.define_function("sin", 1);
        env.define_function("cos", 1);
        env.define_function("tan", 1);
        env.define_function("asin", 1);
        env.define_function("acos", 1);
        env.define_function("atan", 1);
        env.define_function("sinh", 1);
        env.define_function("cosh", 1);
        env.define_function("tanh", 1);
        env.define_function("asinh", 1);
        env.define_function("acosh", 1);
        env.define_function("atanh", 1);
        env.define_function("floor", 1);
        env.define_function("ceil", 1);
        env.define_function("round", 1);
        env.define_function("signum", 1);
        env.define_function("atan2", 2);
        env.define_function("max", 2);
        env.define_function("min", 2);
        env
    }
}

} // verus!
