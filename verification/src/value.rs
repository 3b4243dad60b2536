//! Plain values produced by providers, and the data form of constructors.
//!
//! The engine is type-directed over numeric type keys: every constructible
//! type is named by a `u64` key, and a produced value carries its key, its
//! field contents, and a storage identity (`uid`) minted at construction
//! time.  Constructors are data: a constructor contributes its own seed
//! fields and then the fields of every resolved dependency, in declaration
//! order.

use vstd::prelude::*;

verus! {

/// Mathematical model of a [`Value`].
#[verifier::ext_equal]
pub struct ValueModel {
    /// The type key of the value.
    pub key: u64,
    /// The field contents.
    pub fields: Seq<u64>,
    /// Storage identity: two values constructed by distinct construction
    /// events carry distinct uids.
    pub uid: u64,
}

/// A value produced by resolution: a type key, field contents, and a
/// storage identity minted when the value was constructed.
pub struct Value {
    /// The type key of the value.
    pub key: u64,
    /// The field contents.
    pub fields: Vec<u64>,
    /// Storage identity of this value.
    pub uid: u64,
}

impl View for Value {
    type V = ValueModel;

    open spec fn view(&self) -> ValueModel {
        ValueModel { key: self.key, fields: self.fields@, uid: self.uid }
    }
}

impl Clone for Value {
    fn clone(&self) -> (r: Self)
        ensures
            r@ == self@,
    {
        let fields = clone_fields(&self.fields);
        Value { key: self.key, fields, uid: self.uid }
    }
}

/// Copies a vector of fields, preserving its contents exactly.
pub fn clone_fields(v: &Vec<u64>) -> (r: Vec<u64>)
    ensures
        r@ == v@,
{
    let r = v.clone();
    proof {
        assert(r@ =~= v@);
    }
    r
}

/// A constructor in data form: the constructed value's fields are the
/// constructor's own seed followed by the fields of every dependency, in
/// dependency-list order.  A factory registration supplies such a value
/// directly; a plain registration takes it from the type's declaration.
pub struct Ctor {
    /// Fields the constructor contributes on its own.
    pub seed: Vec<u64>,
}

impl View for Ctor {
    type V = Seq<u64>;

    open spec fn view(&self) -> Seq<u64> {
        self.seed@
    }
}

impl Clone for Ctor {
    fn clone(&self) -> (r: Self)
        ensures
            r@ == self@,
    {
        Ctor { seed: clone_fields(&self.seed) }
    }
}

/// The declaration a constructible type owns: its type key, the ordered
/// list of type keys it depends on, and its constructor.  Immutable after
/// definition; registrations copy what they need out of it.
pub struct TypeDecl {
    /// The key of the declared type.
    pub key: u64,
    /// The ordered dependency list: keys of the types this one is built from.
    pub dep_keys: Vec<u64>,
    /// The type's own constructor.
    pub ctor: Ctor,
}

/// The fields of a sequence of dependency values, concatenated in order.
pub open spec fn concat_fields(deps: Seq<ValueModel>) -> Seq<u64>
    decreases deps.len(),
{
    if deps.len() == 0 {
        Seq::empty()
    } else {
        deps[0].fields + concat_fields(deps.skip(1))
    }
}

/// What a constructor builds from its seed and the resolved dependency
/// values: the seed fields followed by every dependency's fields in order.
pub open spec fn eval_ctor(seed: Seq<u64>, deps: Seq<ValueModel>) -> Seq<u64> {
    seed + concat_fields(deps)
}

/// The views of a sequence of values.
pub open spec fn views_of(vs: Seq<Value>) -> Seq<ValueModel> {
    vs.map(|i: int, v: Value| v@)
}

/// Runs a constructor: appends to a copy of the seed the fields of each
/// dependency value, left to right.
pub fn apply_ctor(ctor: &Ctor, deps: &Vec<Value>) -> (r: Vec<u64>)
    ensures
        r@ == eval_ctor(ctor@, views_of(deps@)),
{
    let mut out: Vec<u64> = clone_fields(&ctor.seed);
    let ghost all = views_of(deps@);
    let mut i: usize = 0;
    while i < deps.len()
        invariant
            i <= deps.len(),
            all == views_of(deps@),
            out@ == ctor@ + concat_fields(all.take(i as int)),
        decreases deps.len() - i,
    {
        let d = &deps[i];
        let mut j: usize = 0;
        while j < d.fields.len()
            invariant
                i < deps.len(),
                j <= d.fields.len(),
                d == deps[i as int],
                all == views_of(deps@),
                out@ == ctor@ + concat_fields(all.take(i as int)) + d.fields@.take(j as int),
            decreases d.fields.len() - j,
        {
            out.push(d.fields[j]);
            proof {
                assert(d.fields@.take(j + 1) =~= d.fields@.take(j as int).push(d.fields@[j as int]));
                assert(out@ =~= ctor@ + concat_fields(all.take(i as int)) + d.fields@.take(j + 1));
            }
            j = j + 1;
        }
        proof {
            assert(d.fields@.take(d.fields@.len() as int) =~= d.fields@);
            lemma_concat_fields_take_step(all, i as int);
            assert(out@ =~= ctor@ + concat_fields(all.take(i + 1)));
        }
        i = i + 1;
    }
    proof {
        assert(all.take(deps@.len() as int) =~= all);
    }
    out
}

/// Concatenating the fields of one more value extends the concatenation of
/// the fields of the values before it.
proof fn lemma_concat_fields_take_step(vs: Seq<ValueModel>, i: int)
    requires
        0 <= i < vs.len(),
    ensures
        concat_fields(vs.take(i + 1)) == concat_fields(vs.take(i)) + vs[i].fields,
    decreases i,
{
    if i == 0 {
        assert(vs.take(1) =~= seq![vs[0]]);
        assert(vs.take(1).skip(1) =~= Seq::<ValueModel>::empty());
        assert(vs.take(0) =~= Seq::<ValueModel>::empty());
        assert(concat_fields(vs.take(1)) =~= concat_fields(vs.take(0)) + vs[0].fields);
    } else {
        lemma_concat_fields_take_step(vs.skip(1), i - 1);
        assert(vs.take(i + 1).skip(1) =~= vs.skip(1).take(i));
        assert(vs.take(i).skip(1) =~= vs.skip(1).take(i - 1));
        assert(vs.take(i + 1)[0] == vs[0]);
        assert(vs.take(i)[0] == vs[0]);
        assert(vs.skip(1)[i - 1] == vs[i]);
        assert(concat_fields(vs.take(i + 1)) == vs[0].fields + concat_fields(vs.skip(1).take(i)));
        assert(concat_fields(vs.take(i)) == vs[0].fields + concat_fields(vs.skip(1).take(i - 1)));
        assert(vs[0].fields + (concat_fields(vs.skip(1).take(i - 1)) + vs[i].fields) =~= (vs[0].fields
            + concat_fields(vs.skip(1).take(i - 1))) + vs[i].fields);
    }
}

} // verus!
