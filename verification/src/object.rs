//! The runtime object model and the environment.
//!
//! Runtime values are a closed set of variants. `ReturnValue` and `Error`
//! are transient control-flow carriers: they propagate through evaluation
//! but are never stored in a binding.
//!
//! An `Environment` owns every scope created during evaluation as an arena
//! of frames. A scope is a frame index; each frame holds its bindings and an
//! optional link to its enclosing frame, which always has a smaller index.
//! A `Function` object names its captured scope by index, so later bindings
//! in the captured scope are visible to every closure over it, and sibling
//! closures observe each other's writes.

use vstd::prelude::*;
use vstd::string::StringExecFns;
use vstd::pervasive::VecAdditionalExecFns;
use crate::ast::{
    Identifier, IdentifierV, Statement, StmtV, clone_idents, idents_view, render_params,
    render_stmt, stmt_view,
};

verus! {

pub type ObjectType = &'static str;

/// A runtime value.
#[derive(Debug)]
pub enum Object {
    Integer { Value: i64 },
    Boolean { Value: bool },
    ReturnValue { Value: Box<Object> },
    Error { Message: String },
    Function { Parameters: Vec<Identifier>, Body: Box<Statement>, Env: usize },
    Null,
}

/// The mathematical value of a runtime object. A function value is its
/// parameter list, its body, and the index of its captured scope.
pub ghost enum ObjV {
    Integer { Value: i64 },
    Boolean { Value: bool },
    ReturnValue { Value: Box<ObjV> },
    Error { Message: Seq<char> },
    Function { Parameters: Seq<IdentifierV>, Body: Box<StmtV>, Env: int },
    Null,
}

pub open spec fn obj_view(o: Object) -> ObjV
    decreases o,
{
    match o {
        Object::Integer { Value } => ObjV::Integer { Value },
        Object::Boolean { Value } => ObjV::Boolean { Value },
        Object::ReturnValue { Value } => ObjV::ReturnValue { Value: Box::new(obj_view(*Value)) },
        Object::Error { Message } => ObjV::Error { Message: Message@ },
        Object::Function { Parameters, Body, Env } => ObjV::Function {
            Parameters: idents_view(Parameters@),
            Body: Box::new(stmt_view(*Body)),
            Env: Env as int,
        },
        Object::Null => ObjV::Null,
    }
}

impl View for Object {
    type V = ObjV;

    open spec fn view(&self) -> ObjV {
        obj_view(*self)
    }
}

impl Clone for Object {
    fn clone(&self) -> (res: Self)
        ensures
            res@ == self@,
        decreases *self,
    {
        match self {
            Object::Integer { Value } => Object::Integer { Value: *Value },
            Object::Boolean { Value } => Object::Boolean { Value: *Value },
            Object::ReturnValue { Value } => Object::ReturnValue {
                Value: Box::new((&**Value).clone()),
            },
            Object::Error { Message } => Object::Error { Message: Message.clone() },
            Object::Function { Parameters, Body, Env } => Object::Function {
                Parameters: clone_idents(Parameters),
                Body: Box::new((&**Body).clone()),
                Env: *Env,
            },
            Object::Null => Object::Null,
        }
    }
}

pub const INTEGER_OBJ: ObjectType = "INTEGER";

pub const BOOLEAN_OBJ: ObjectType = "BOOLEAN";

pub const NULL_OBJ: ObjectType = "NULL";

pub const RETURN_VALUE_OBJ: ObjectType = "RETURN_VALUE";

pub const ERROR_OBJ: ObjectType = "ERROR";

pub const FUNCTION_OBJ: ObjectType = "FUNCTION";

/// The type name of an object, as it appears in error messages.
pub open spec fn spec_type_name(o: ObjV) -> Seq<char> {
    match o {
        ObjV::Integer { Value } => "INTEGER"@,
        ObjV::Boolean { Value } => "BOOLEAN"@,
        ObjV::ReturnValue { Value } => "RETURN_VALUE"@,
        ObjV::Error { Message } => "ERROR"@,
        ObjV::Function { Parameters, Body, Env } => "FUNCTION"@,
        ObjV::Null => "NULL"@,
    }
}

/// The digit characters of `n`, most significant first.
pub open spec fn dec_digits(n: nat) -> Seq<char>
    decreases n,
{
    if n < 10 {
        seq![digit_char(n)]
    } else {
        dec_digits(n / 10).push(digit_char(n % 10))
    }
}

/// The character for a single decimal digit.
pub open spec fn digit_char(d: nat) -> char {
    if d == 0 {
        '0'
    } else if d == 1 {
        '1'
    } else if d == 2 {
        '2'
    } else if d == 3 {
        '3'
    } else if d == 4 {
        '4'
    } else if d == 5 {
        '5'
    } else if d == 6 {
        '6'
    } else if d == 7 {
        '7'
    } else if d == 8 {
        '8'
    } else {
        '9'
    }
}

/// The decimal text of an integer: a minus sign for negative values, then
/// the digits of the magnitude.
pub open spec fn dec_int(v: int) -> Seq<char> {
    if v < 0 {
        seq!['-'] + dec_digits((-v) as nat)
    } else {
        dec_digits(v as nat)
    }
}

/// The digit character of `d`, for `d < 10`.
fn digit_str(d: u64) -> (r: &'static str)
    requires
        d < 10,
    ensures
        r@ == seq![digit_char(d as nat)],
{
    let r: &'static str = if d == 0 {
        "0"
    } else if d == 1 {
        "1"
    } else if d == 2 {
        "2"
    } else if d == 3 {
        "3"
    } else if d == 4 {
        "4"
    } else if d == 5 {
        "5"
    } else if d == 6 {
        "6"
    } else if d == 7 {
        "7"
    } else if d == 8 {
        "8"
    } else {
        "9"
    };
    proof {
        reveal_strlit("0");
        reveal_strlit("1");
        reveal_strlit("2");
        reveal_strlit("3");
        reveal_strlit("4");
        reveal_strlit("5");
        reveal_strlit("6");
        reveal_strlit("7");
        reveal_strlit("8");
        reveal_strlit("9");
        assert(r@ =~= seq![digit_char(d as nat)]);
    }
    r
}

/// The decimal text of a natural number.
fn u64_to_string(n: u64) -> (r: String)
    ensures
        r@ == dec_digits(n as nat),
    decreases n,
{
    if n < 10 {
        <String as StringExecFns>::from_str(digit_str(n))
    } else {
        let mut r = u64_to_string(n / 10);
        r.append(digit_str(n % 10));
        r
    }
}

/// The decimal text of a signed integer.
pub(crate) fn i64_to_string(v: i64) -> (r: String)
    ensures
        r@ == dec_int(v as int),
{
    if v >= 0 {
        u64_to_string(v as u64)
    } else {
        let mag: u64 = if v == i64::MIN {
            9223372036854775808u64
        } else {
            (-v) as u64
        };
        let mut r = <String as StringExecFns>::from_str("-");
        let digits = u64_to_string(mag);
        r.append(digits.as_str());
        proof {
            reveal_strlit("-");
            assert(r@ =~= seq!['-'] + dec_digits((-(v as int)) as nat));
        }
        r
    }
}

/// The canonical display text of an object.
pub open spec fn spec_inspect(o: ObjV) -> Seq<char>
    decreases o,
{
    match o {
        ObjV::Integer { Value } => dec_int(Value as int),
        ObjV::Boolean { Value } => if Value {
            "true"@
        } else {
            "false"@
        },
        ObjV::ReturnValue { Value } => spec_inspect(*Value),
        ObjV::Error { Message } => "ERROR: "@ + Message,
        ObjV::Function { Parameters, Body, Env } => "fn("@ + render_params(Parameters) + ") "@
            + render_stmt(*Body),
        ObjV::Null => "null"@,
    }
}

impl Object {
    /// The type name of this object, as used in error messages.
    pub fn Type(&self) -> (r: ObjectType)
        ensures
            r@ == spec_type_name(self@),
    {
        match self {
            Object::Integer { Value } => INTEGER_OBJ,
            Object::Boolean { Value } => BOOLEAN_OBJ,
            Object::ReturnValue { Value } => RETURN_VALUE_OBJ,
            Object::Error { Message } => ERROR_OBJ,
            Object::Function { Parameters, Body, Env } => FUNCTION_OBJ,
            Object::Null => NULL_OBJ,
        }
    }

    /// The canonical display text of this object.
    pub fn Inspect(&self) -> (r: String)
        ensures
            r@ == spec_inspect(self@),
        decreases *self,
    {
        match self {
            Object::Integer { Value } => i64_to_string(*Value),
            Object::Boolean { Value } => {
                if *Value {
                    <String as StringExecFns>::from_str("true")
                } else {
                    <String as StringExecFns>::from_str("false")
                }
            },
            Object::ReturnValue { Value } => (&**Value).Inspect(),
            Object::Error { Message } => {
                let mut r = <String as StringExecFns>::from_str("ERROR: ");
                r.append(Message.as_str());
                r
            },
            Object::Function { Parameters, Body, Env } => {
                let mut r = <String as StringExecFns>::from_str("fn(");
                let ps = crate::ast::idents_join(Parameters);
                r.append(ps.as_str());
                r.append(") ");
                let bt = (&**Body).into_string();
                r.append(bt.as_str());
                r
            },
            Object::Null => <String as StringExecFns>::from_str("null"),
        }
    }
}

/// Validity of an object with respect to an arena of `n` frames: every
/// captured scope index it holds names an existing frame.
pub open spec fn obj_wf(o: ObjV, n: int) -> bool
    decreases o,
{
    match o {
        ObjV::ReturnValue { Value } => obj_wf(*Value, n),
        ObjV::Function { Parameters, Body, Env } => 0 <= Env < n,
        _ => true,
    }
}

/// One scope: its bindings and the index of its enclosing scope, if any.
pub struct EnvFrame {
    pub(crate) store: Vec<(String, Object)>,
    pub(crate) outer: Option<usize>,
}

/// The mathematical value of a scope: a finite map of bindings and the
/// optional enclosing index.
pub ghost struct FrameV {
    pub bindings: Map<Seq<char>, ObjV>,
    pub outer: Option<int>,
}

/// The binding map denoted by an association list; a later entry for a name
/// supersedes an earlier one.
pub open spec fn assoc_view(s: Seq<(String, Object)>) -> Map<Seq<char>, ObjV>
    decreases s.len(),
{
    if s.len() == 0 {
        Map::empty()
    } else {
        assoc_view(s.drop_last()).insert(s.last().0@, s.last().1@)
    }
}

pub closed spec fn frame_view(f: EnvFrame) -> FrameV {
    FrameV {
        bindings: assoc_view(f.store@),
        outer: match f.outer {
            Some(i) => Some(i as int),
            None => None,
        },
    }
}

/// No name occurs twice in one scope's association list.
pub open spec fn store_keys_unique(s: Seq<(String, Object)>) -> bool {
    forall|i: int, j: int| 0 <= i < j < s.len() ==> s[i].0@ != s[j].0@
}

/// Validity of a whole arena: every enclosing link points to an earlier
/// frame, and every stored object is valid for the arena.
pub open spec fn env_wf(h: Seq<FrameV>) -> bool {
    &&& h.len() >= 1
    &&& forall|i: int|
        0 <= i < h.len() ==> (match #[trigger] h[i].outer {
            Some(o) => 0 <= o < i,
            None => true,
        })
    &&& forall|i: int, k: Seq<char>|
        0 <= i < h.len() && #[trigger] h[i].bindings.dom().contains(k) ==> obj_wf(
            h[i].bindings[k],
            h.len() as int,
        )
}

/// Looks a name up starting at frame `fr` and walking the enclosing links
/// outward; absent frames yield no binding.
pub open spec fn env_lookup(h: Seq<FrameV>, fr: int, name: Seq<char>) -> Option<ObjV>
    decreases fr,
{
    if !(0 <= fr < h.len()) {
        None
    } else if h[fr].bindings.dom().contains(name) {
        Some(h[fr].bindings[name])
    } else {
        match h[fr].outer {
            Some(o) => if 0 <= o < fr {
                env_lookup(h, o, name)
            } else {
                None
            },
            None => None,
        }
    }
}

/// The lexically scoped environment: an arena of every scope created so
/// far. Frame 0 is the top-level scope.
pub struct Environment {
    pub(crate) frames: Vec<EnvFrame>,
}

impl View for Environment {
    type V = Seq<FrameV>;

    closed spec fn view(&self) -> Seq<FrameV> {
        Seq::new(self.frames@.len(), |i: int| frame_view(self.frames@[i]))
    }
}

impl Environment {
    /// Names inside each scope's association list occur once.
    pub closed spec fn stores_ok(self) -> bool {
        forall|i: int|
            0 <= i < self.frames@.len() ==> store_keys_unique(#[trigger] self.frames@[i].store@)
    }

    /// Arena validity together with uniqueness of names inside each scope.
    pub open spec fn wf(self) -> bool {
        &&& env_wf(self@)
        &&& self.stores_ok()
    }
}

/// Makes an environment holding one empty top-level scope.
pub fn NewEnvironment() -> (r: Environment)
    ensures
        r.wf(),
        r@.len() == 1,
        r@[0].bindings == Map::<Seq<char>, ObjV>::empty(),
        r@[0].outer is None,
{
    let mut frames: Vec<EnvFrame> = Vec::new();
    frames.push(EnvFrame { store: Vec::new(), outer: None });
    Environment { frames }
}

/// Finds the value bound to `name` in one association list.
fn store_get<'a>(s: &'a Vec<(String, Object)>, name: &String) -> (r: Option<&'a Object>)
    requires
        store_keys_unique(s@),
    ensures
        match r {
            Some(o) => assoc_view(s@).dom().contains(name@) && o@ == assoc_view(s@)[name@],
            None => !assoc_view(s@).dom().contains(name@),
        },
{
    proof {
        lemma_assoc_view(s@, name@);
    }
    let mut i: usize = 0;
    while i < s.len()
        invariant
            i <= s@.len(),
            store_keys_unique(s@),
            forall|j: int| 0 <= j < i ==> s@[j].0@ != name@,
            assoc_view(s@).dom().contains(name@) <==> (exists|j: int|
                0 <= j < s@.len() && s@[j].0@ == name@),
            forall|j: int|
                0 <= j < s@.len() && s@[j].0@ == name@ ==> assoc_view(s@)[name@] == s@[j].1@,
        decreases s@.len() - i,
    {
        if string_eq(&s[i].0, name) {
            return Some(&s[i].1);
        }
        i = i + 1;
    }
    None
}

/// Two strings are equal exactly when their characters are.
pub(crate) fn string_eq(a: &String, b: &String) -> (r: bool)
    ensures
        r == (a@ == b@),
{
    *a == *b
}

/// Relates a scan of an association list with unique names to the map it
/// denotes.
proof fn lemma_assoc_view(s: Seq<(String, Object)>, name: Seq<char>)
    ensures
        assoc_view(s).dom().contains(name) <==> (exists|j: int|
            0 <= j < s.len() && s[j].0@ == name),
        forall|j: int|
            0 <= j < s.len() && store_keys_unique(s) && s[j].0@ == name ==> assoc_view(s)[name]
                == s[j].1@,
    decreases s.len(),
{
    if s.len() > 0 {
        lemma_assoc_view(s.drop_last(), name);
        assert forall|j: int|
            0 <= j < s.len() && store_keys_unique(s) && s[j].0@ == name implies assoc_view(
            s,
        )[name] == s[j].1@ by {
            if s.last().0@ == name {
                assert(j == s.len() - 1);
            } else {
                assert(store_keys_unique(s.drop_last()));
                assert(j < s.len() - 1);
                assert(s.drop_last()[j] == s[j]);
            }
        }
        if (exists|j: int| 0 <= j < s.len() && s[j].0@ == name) {
            let j = choose|j: int| 0 <= j < s.len() && s[j].0@ == name;
            if j < s.len() - 1 {
                assert(s.drop_last()[j] == s[j]);
            }
        }
    }
}

impl Environment {
    /// Looks `name` up starting at frame `fr`, walking outward through the
    /// enclosing links.
    pub(crate) fn frame_get<'a>(&'a self, fr: usize, name: &String) -> (r: Option<&'a Object>)
        requires
            self.wf(),
            fr < self@.len(),
        ensures
            match r {
                Some(o) => env_lookup(self@, fr as int, name@) == Some(o@),
                None => env_lookup(self@, fr as int, name@) is None,
            },
        decreases fr,
    {
        let frame = &self.frames[fr];
        match store_get(&frame.store, name) {
            Some(o) => Some(o),
            None => {
                match frame.outer {
                    Some(out) => self.frame_get(out, name),
                    None => None,
                }
            },
        }
    }

    /// Binds `name` to `val` in frame `fr`, superseding any earlier binding
    /// of the same name there.
    pub(crate) fn frame_set(&mut self, fr: usize, name: &String, val: Object)
        requires
            old(self).wf(),
            fr < old(self)@.len(),
            obj_wf(val@, old(self)@.len() as int),
        ensures
            final(self).wf(),
            final(self)@ == old(self)@.update(
                fr as int,
                FrameV {
                    bindings: old(self)@[fr as int].bindings.insert(name@, val@),
                    outer: old(self)@[fr as int].outer,
                },
            ),
    {
        let ghost old_env = self@;
        let mut tmp = EnvFrame { store: Vec::new(), outer: None };
        self.frames.set_and_swap(fr, &mut tmp);
        let ghost old_store = tmp.store@;
        proof {
            assert(store_keys_unique(old(self).frames@[fr as int].store@));
        }
        let entry = (name.clone(), val.clone());
        match store_find(&tmp.store, name) {
            Some(i) => {
                tmp.store.set(i, entry);
                proof {
                    assert(tmp.store@ == old_store.update(i as int, tmp.store@[i as int]));
                }
            },
            None => {
                tmp.store.push(entry);
                proof {
                    assert(tmp.store@ == old_store.push(tmp.store@.last()));
                }
            },
        }
        proof {
            lemma_assoc_update(old_store, tmp.store@, name@, val@);
        }
        self.frames.set_and_swap(fr, &mut tmp);
        proof {
            assert(final(self)@ =~= old_env.update(
                fr as int,
                FrameV {
                    bindings: old_env[fr as int].bindings.insert(name@, val@),
                    outer: old_env[fr as int].outer,
                },
            ));
            lemma_env_set_wf(old_env, final(self)@, fr as int, name@, val@);
        }
    }
}

/// The position of the entry for `name`, if one exists.
fn store_find(s: &Vec<(String, Object)>, name: &String) -> (r: Option<usize>)
    ensures
        match r {
            Some(i) => i < s@.len() && s@[i as int].0@ == name@,
            None => forall|j: int| 0 <= j < s@.len() ==> s@[j].0@ != name@,
        },
{
    let mut i: usize = 0;
    while i < s.len()
        invariant
            i <= s@.len(),
            forall|j: int| 0 <= j < i ==> s@[j].0@ != name@,
        decreases s@.len() - i,
    {
        if string_eq(&s[i].0, name) {
            return Some(i);
        }
        i = i + 1;
    }
    None
}

/// Replacing or appending the entry for a name updates the denoted map by
/// one insertion and keeps the names unique.
proof fn lemma_assoc_update(
    old_s: Seq<(String, Object)>,
    new_s: Seq<(String, Object)>,
    name: Seq<char>,
    val: ObjV,
)
    requires
        store_keys_unique(old_s),
        ((exists|j: int|
            0 <= j < old_s.len() && old_s[j].0@ == name && new_s == old_s.update(j, new_s[j])
                && new_s[j].0@ == name && new_s[j].1@ == val) || ((forall|j: int|
            0 <= j < old_s.len() ==> old_s[j].0@ != name) && new_s == old_s.push(new_s.last())
            && new_s.last().0@ == name && new_s.last().1@ == val)),
    ensures
        store_keys_unique(new_s),
        assoc_view(new_s) == assoc_view(old_s).insert(name, val),
{
    if (exists|j: int|
        0 <= j < old_s.len() && old_s[j].0@ == name && new_s == old_s.update(j, new_s[j])
            && new_s[j].0@ == name && new_s[j].1@ == val) {
        let j = choose|j: int|
            0 <= j < old_s.len() && old_s[j].0@ == name && new_s == old_s.update(j, new_s[j])
                && new_s[j].0@ == name && new_s[j].1@ == val;
        lemma_assoc_replace(old_s, new_s, j, name, val);
    } else {
        assert(store_keys_unique(new_s)) by {
            assert forall|i: int, k: int| 0 <= i < k < new_s.len() implies new_s[i].0@
                != new_s[k].0@ by {
                if k < new_s.len() - 1 {
                    assert(new_s[i] == old_s[i] && new_s[k] == old_s[k]);
                } else {
                    assert(new_s[i] == old_s[i]);
                }
            }
        }
        assert(new_s.drop_last() =~= old_s);
        assert(assoc_view(new_s) == assoc_view(old_s).insert(name, val));
    }
}

/// Replacing the unique entry for a name re-inserts that name in the map.
proof fn lemma_assoc_replace(
    old_s: Seq<(String, Object)>,
    new_s: Seq<(String, Object)>,
    j: int,
    name: Seq<char>,
    val: ObjV,
)
    requires
        store_keys_unique(old_s),
        0 <= j < old_s.len(),
        old_s[j].0@ == name,
        new_s == old_s.update(j, new_s[j]),
        new_s[j].0@ == name,
        new_s[j].1@ == val,
    ensures
        store_keys_unique(new_s),
        assoc_view(new_s) == assoc_view(old_s).insert(name, val),
    decreases old_s.len(),
{
    assert(new_s.len() == old_s.len());
    assert(store_keys_unique(new_s)) by {
        assert forall|i: int, k: int| 0 <= i < k < new_s.len() implies new_s[i].0@
            != new_s[k].0@ by {
            assert(old_s[i].0@ != old_s[k].0@);
        }
    }
    if j == old_s.len() - 1 {
        assert(new_s.drop_last() =~= old_s.drop_last());
        assert(assoc_view(new_s) =~= assoc_view(old_s).insert(name, val));
    } else {
        assert(new_s.drop_last() =~= old_s.drop_last().update(j, new_s[j]));
        assert(store_keys_unique(old_s.drop_last()));
        lemma_assoc_replace(old_s.drop_last(), new_s.drop_last(), j, name, val);
        assert(new_s.last() == old_s.last());
        assert(old_s.last().0@ != name);
        assert(assoc_view(new_s) =~= assoc_view(old_s).insert(name, val));
    }
}

/// Inserting a valid object into a frame of a valid arena keeps the arena
/// valid.
proof fn lemma_env_set_wf(
    old_h: Seq<FrameV>,
    new_h: Seq<FrameV>,
    fr: int,
    name: Seq<char>,
    val: ObjV,
)
    requires
        env_wf(old_h),
        0 <= fr < old_h.len(),
        obj_wf(val, old_h.len() as int),
        new_h == old_h.update(
            fr,
            FrameV { bindings: old_h[fr].bindings.insert(name, val), outer: old_h[fr].outer },
        ),
    ensures
        env_wf(new_h),
{
    assert forall|i: int, k: Seq<char>|
        0 <= i < new_h.len() && #[trigger] new_h[i].bindings.dom().contains(k) implies obj_wf(
        new_h[i].bindings[k],
        new_h.len() as int,
    ) by {
        if i == fr && k != name {
            assert(old_h[i].bindings.dom().contains(k));
        }
        if i != fr {
            assert(old_h[i].bindings.dom().contains(k));
        }
    }
}

impl Environment {
    /// Appends a fresh empty scope enclosed by `outer`, returning its index.
    pub(crate) fn push_frame(&mut self, outer: usize) -> (fr: usize)
        requires
            old(self).wf(),
            outer < old(self)@.len(),
        ensures
            final(self).wf(),
            fr == old(self)@.len(),
            final(self)@ == old(self)@.push(
                FrameV { bindings: Map::empty(), outer: Some(outer as int) },
            ),
    {
        let fr = self.frames.len();
        self.frames.push(EnvFrame { store: Vec::new(), outer: Some(outer) });
        proof {
            assert(final(self)@ =~= old(self)@.push(
                FrameV { bindings: Map::empty(), outer: Some(outer as int) },
            ));
            lemma_env_grow_wf(old(self)@, final(self)@, outer as int);
        }
        fr
    }

    /// Looks `name` up in the top-level scope chain.
    pub fn Get<'a>(&'a self, name: &String) -> (r: Option<&'a Object>)
        requires
            self.wf(),
        ensures
            match r {
                Some(o) => env_lookup(self@, 0, name@) == Some(o@),
                None => env_lookup(self@, 0, name@) is None,
            },
    {
        self.frame_get(0, name)
    }

    /// Binds `name` to `val` in the top-level scope and hands the value
    /// back.
    pub fn SetValue(&mut self, name: &String, val: Object) -> (r: Object)
        requires
            old(self).wf(),
            obj_wf(val@, old(self)@.len() as int),
        ensures
            final(self).wf(),
            final(self)@ == old(self)@.update(
                0,
                FrameV {
                    bindings: old(self)@[0].bindings.insert(name@, val@),
                    outer: old(self)@[0].outer,
                },
            ),
            r@ == val@,
    {
        let stored = val.clone();
        self.frame_set(0, name, stored);
        val
    }
}

/// A valid arena stays valid when a frame with a valid enclosing link is
/// appended.
proof fn lemma_env_grow_wf(old_h: Seq<FrameV>, new_h: Seq<FrameV>, outer: int)
    requires
        env_wf(old_h),
        0 <= outer < old_h.len(),
        new_h == old_h.push(FrameV { bindings: Map::empty(), outer: Some(outer) }),
    ensures
        env_wf(new_h),
{
    assert forall|i: int, k: Seq<char>|
        0 <= i < new_h.len() && #[trigger] new_h[i].bindings.dom().contains(k) implies obj_wf(
        new_h[i].bindings[k],
        new_h.len() as int,
    ) by {
        if i < old_h.len() {
            assert(old_h[i].bindings.dom().contains(k));
            lemma_obj_wf_mono(old_h[i].bindings[k], old_h.len() as int, new_h.len() as int);
        } else {
            assert(new_h[i].bindings.dom() =~= Set::empty());
        }
    }
}

/// Object validity is monotone in the arena size.
pub proof fn lemma_obj_wf_mono(o: ObjV, n: int, m: int)
    requires
        obj_wf(o, n),
        n <= m,
    ensures
        obj_wf(o, m),
    decreases o,
{
    match o {
        ObjV::ReturnValue { Value } => {
            lemma_obj_wf_mono(*Value, n, m);
        },
        _ => {},
    }
}


/// The views of a sequence of objects.
pub open spec fn objs_view(v: Seq<Object>) -> Seq<ObjV>
    decreases v,
{
    if v.len() == 0 {
        Seq::empty()
    } else {
        objs_view(v.drop_last()).push(obj_view(v.last()))
    }
}

/// The view of an object sequence is the sequence of object views.
pub proof fn lemma_objs_view(v: Seq<Object>)
    ensures
        objs_view(v).len() == v.len(),
        forall|i: int| 0 <= i < v.len() ==> objs_view(v)[i] == obj_view(v[i]),
    decreases v.len(),
{
    if v.len() > 0 {
        lemma_objs_view(v.drop_last());
    }
}

/// Two objects are equal exactly when their views are.
pub(crate) fn obj_eq(a: &Object, b: &Object) -> (r: bool)
    ensures
        r == (a@ == b@),
    decreases *a,
{
    match (a, b) {
        (Object::Integer { Value: x }, Object::Integer { Value: y }) => *x == *y,
        (Object::Boolean { Value: x }, Object::Boolean { Value: y }) => *x == *y,
        (Object::ReturnValue { Value: x }, Object::ReturnValue { Value: y }) => obj_eq(&**x, &**y),
        (Object::Error { Message: x }, Object::Error { Message: y }) => string_eq(x, y),
        (
            Object::Function { Parameters: p1, Body: b1, Env: e1 },
            Object::Function { Parameters: p2, Body: b2, Env: e2 },
        ) => crate::ast::idents_eq(p1, p2) && crate::ast::stmt_eq(&**b1, &**b2) && *e1 == *e2,
        (Object::Null, Object::Null) => true,
        _ => false,
    }
}


/// A value found by lookup in a valid arena is valid for that arena.
pub proof fn lemma_env_lookup_wf(h: Seq<FrameV>, fr: int, name: Seq<char>)
    requires
        env_wf(h),
    ensures
        match env_lookup(h, fr, name) {
            Some(v) => obj_wf(v, h.len() as int),
            None => true,
        },
    decreases fr,
{
    if 0 <= fr < h.len() {
        if h[fr].bindings.dom().contains(name) {
        } else {
            match h[fr].outer {
                Some(o) => {
                    if 0 <= o < fr {
                        lemma_env_lookup_wf(h, o, name);
                    }
                },
                None => {},
            }
        }
    }
}

} // verus!
