//! Shell variables: a stack of contexts (frames), each a dictionary of named variables.
//!
//! A context keeps its variables in insertion order with unique names; the stack is searched
//! from the top frame down, and a name unknown to every frame is bound in the global frame at
//! the bottom.

use vstd::prelude::*;
use crate::strings::{str_eq, string_push, string_push_str};

verus! {

/// The type of a context. There is exactly one global frame, at the bottom of the stack.
#[derive(PartialEq, Eq, Structural, Clone, Copy, Debug)]
pub enum ContextType {
    Global,
    Function,
    Builtin,
    Temp,
}

/// The type of a variable; it decides how values are set.
#[derive(PartialEq, Eq, Structural, Clone, Copy, Debug)]
pub enum VariableType {
    String,
}

/// The value of a variable.
#[derive(Debug)]
pub struct VariableValue {
    _vtype: VariableType,
    value: String,
}

/// A variable and its flags.
#[derive(Debug)]
pub struct Variable {
    value: VariableValue,
    read_only: bool,
    exported: bool,
    visible: bool,
}

/// What a variable is: its text and its flags.
pub struct VariableView {
    pub value: Seq<char>,
    pub read_only: bool,
    pub exported: bool,
    pub visible: bool,
}

impl View for Variable {
    type V = VariableView;

    closed spec fn view(&self) -> VariableView {
        VariableView {
            value: self.value.value@,
            read_only: self.read_only,
            exported: self.exported,
            visible: self.visible,
        }
    }
}

/// Why binding or reading a variable failed.
#[derive(Debug)]
pub enum VariableError {
    /// The variable exists and is read-only.
    VariableIsReadOnly(String),
    /// No frame holds a variable of that name.
    UnknownVariable(String),
}

/// A fresh string variable: writeable, not exported, visible.
pub open spec fn scalar_string(value: Seq<char>) -> VariableView {
    VariableView { value, read_only: false, exported: false, visible: true }
}

impl Variable {
    /// A new writeable, visible, unexported string variable.
    pub fn new_scalar_string(value: &str) -> (v: Self)
        ensures
            v@ == scalar_string(value@),
    {
        Self {
            value: VariableValue { _vtype: VariableType::String, value: value.to_owned() },
            read_only: false,
            exported: false,
            visible: true,
        }
    }

    pub fn set_value(&mut self, value: &str)
        ensures
            final(self)@ == (VariableView { value: value@, ..old(self)@ }),
    {
        self.value.value = value.to_owned();
    }

    pub fn as_string(&self) -> (s: &String)
        ensures
            s@ == self@.value,
    {
        &self.value.value
    }

    pub fn as_str(&self) -> (s: &str)
        ensures
            s@ == self@.value,
    {
        self.value.value.as_str()
    }

    pub fn is_writeable(&self) -> (b: bool)
        ensures
            b == !self@.read_only,
    {
        !self.read_only
    }

    pub fn is_readonly(&self) -> (b: bool)
        ensures
            b == self@.read_only,
    {
        self.read_only
    }

    pub fn set_readonly(&mut self, ro: bool)
        ensures
            final(self)@ == (VariableView { read_only: ro, ..old(self)@ }),
    {
        self.read_only = ro;
    }

    pub fn set_exported(&mut self, exp: bool)
        ensures
            final(self)@ == (VariableView { exported: exp, ..old(self)@ }),
    {
        self.exported = exp;
    }

    pub fn is_exported(&self) -> (b: bool)
        ensures
            b == self@.exported,
    {
        self.exported
    }

    pub fn set_visible(&mut self)
        ensures
            final(self)@ == (VariableView { visible: true, ..old(self)@ }),
    {
        self.visible = true;
    }

    pub fn set_invisible(&mut self)
        ensures
            final(self)@ == (VariableView { visible: false, ..old(self)@ }),
    {
        self.visible = false;
    }

    /// The line by which the `declare` builtin shows this variable under `name`.
    pub fn print_for_builtins(&self, name: &str) -> (line: String)
        ensures
            line@ == declaration(name@, self@),
    {
        let mut flags = String::new();
        if self.read_only {
            string_push(&mut flags, 'r');
        }
        if self.exported {
            string_push(&mut flags, 'x');
        }
        let ghost f = (if self@.read_only { seq!['r'] } else { Seq::<char>::empty() }) + (
        if self@.exported {
            seq!['x']
        } else {
            Seq::<char>::empty()
        });
        assert(flags@ =~= f);
        let mut line = String::new();
        string_push_str(&mut line, "declare ");
        if !flags.as_str().is_empty() {
            string_push(&mut line, '-');
        }
        string_push_str(&mut line, flags.as_str());
        string_push(&mut line, ' ');
        string_push_str(&mut line, name);
        string_push(&mut line, '=');
        string_push(&mut line, '"');
        string_push_str(&mut line, self.value.value.as_str());
        string_push(&mut line, '"');
        string_push(&mut line, '\n');
        proof {
            reveal_strlit("declare ");
            assert(line@ =~= declaration(name@, self@));
        }
        line
    }
}

/// The flags of a variable as the `declare` builtin shows them: `-` and `r` for read-only,
/// `x` for exported, or nothing.
pub open spec fn flag_text(v: VariableView) -> Seq<char> {
    let f = (if v.read_only { seq!['r'] } else { Seq::empty() }) + (if v.exported {
        seq!['x']
    } else {
        Seq::empty()
    });
    if f.len() == 0 {
        f
    } else {
        seq!['-'] + f
    }
}

/// `declare <flags> <name>="<value>"` and a line break.
pub open spec fn declaration(name: Seq<char>, v: VariableView) -> Seq<char> {
    seq!['d', 'e', 'c', 'l', 'a', 'r', 'e', ' '] + flag_text(v) + seq![' '] + name + seq!['=', '"']
        + v.value + seq!['"', '\n']
}

/// A context (stack frame) as a value: its name, its type and its variables in order.
pub struct ContextView {
    pub name: Seq<char>,
    pub ctx_type: ContextType,
    pub vars: Seq<(Seq<char>, VariableView)>,
}

/// Some entry of `vars` is named `name`.
pub open spec fn has_name(vars: Seq<(Seq<char>, VariableView)>, name: Seq<char>) -> bool {
    exists|i: int| 0 <= i < vars.len() && #[trigger] vars[i].0 == name
}

/// No two entries of `vars` share a name.
pub open spec fn unique_names(vars: Seq<(Seq<char>, VariableView)>) -> bool {
    forall|i: int, j: int| 0 <= i < j < vars.len() ==> #[trigger] vars[i].0 != #[trigger] vars[j].0
}

/// The position of the entry named `name` (meaningful where `has_name` holds).
pub open spec fn index_of_name(vars: Seq<(Seq<char>, VariableView)>, name: Seq<char>) -> int {
    choose|i: int| 0 <= i < vars.len() && #[trigger] vars[i].0 == name
}

/// The variable named `name` in `vars`, if any.
pub open spec fn lookup(vars: Seq<(Seq<char>, VariableView)>, name: Seq<char>) -> Option<VariableView> {
    if has_name(vars, name) {
        Some(vars[index_of_name(vars, name)].1)
    } else {
        None
    }
}

/// With unique names, the entry at `i` is the one that `lookup` finds.
pub proof fn lemma_index_of_name(vars: Seq<(Seq<char>, VariableView)>, i: int)
    requires
        unique_names(vars),
        0 <= i < vars.len(),
    ensures
        has_name(vars, vars[i].0),
        index_of_name(vars, vars[i].0) == i,
        lookup(vars, vars[i].0) == Some(vars[i].1),
{
    let name = vars[i].0;
    assert(vars[i].0 == name);
    let k = index_of_name(vars, name);
    if k != i {
        if k < i {
            assert(vars[k].0 != vars[i].0);
        } else {
            assert(vars[i].0 != vars[k].0);
        }
    }
}

/// The variables of a context as names and values.
pub open spec fn vars_view(s: Seq<(String, Variable)>) -> Seq<(Seq<char>, VariableView)> {
    s.map_values(|e: (String, Variable)| (e.0@, e.1@))
}

/// Replacing one entry replaces its view.
proof fn lemma_vars_view_update(s: Seq<(String, Variable)>, i: int)
    requires
        0 <= i < s.len(),
    ensures
        forall|x: (String, Variable)| #[trigger] vars_view(s.update(i, x)) == vars_view(s).update(i, (x.0@, x.1@)),
{
    assert forall|x: (String, Variable)| #[trigger] vars_view(s.update(i, x)) == vars_view(s).update(i, (x.0@, x.1@)) by {
        assert(vars_view(s.update(i, x)) =~= vars_view(s).update(i, (x.0@, x.1@)));
    }
}

/// A stack frame, named context as in bash.
#[derive(Debug)]
pub struct Context {
    name: String,
    ctx_type: ContextType,
    variables: Vec<(String, Variable)>,
}

impl View for Context {
    type V = ContextView;

    closed spec fn view(&self) -> ContextView {
        ContextView {
            name: self.name@,
            ctx_type: self.ctx_type,
            vars: vars_view(self.variables@),
        }
    }
}

impl Context {
    pub fn new(ctx_type: ContextType, name: &str) -> (c: Self)
        ensures
            c@.name == name@,
            c@.ctx_type == ctx_type,
            c@.vars == Seq::<(Seq<char>, VariableView)>::empty(),
    {
        let c = Self { name: name.to_owned(), ctx_type, variables: Vec::new() };
        proof {
            assert(c@.vars =~= Seq::<(Seq<char>, VariableView)>::empty());
        }
        c
    }

    pub fn is_temp(&self) -> (b: bool)
        ensures
            b == (self@.ctx_type == ContextType::Temp),
    {
        self.ctx_type == ContextType::Temp
    }

    /// The position of the variable named `name`, if there is one.
    fn position(&self, name: &str) -> (r: Option<usize>)
        ensures
            match r {
                Some(i) => i < self@.vars.len() && self@.vars[i as int].0 == name@,
                None => !has_name(self@.vars, name@),
            },
    {
        let mut i: usize = 0;
        while i < self.variables.len()
            invariant
                i <= self.variables@.len(),
                forall|j: int| 0 <= j < i ==> self@.vars[j].0 != name@,
            decreases self.variables@.len() - i,
        {
            if str_eq(self.variables[i].0.as_str(), name) {
                return Some(i);
            }
            i = i + 1;
        }
        None
    }

    pub fn has_variable(&self, name: &str) -> (b: bool)
        ensures
            b == has_name(self@.vars, name@),
    {
        self.position(name).is_some()
    }

    pub fn find_variable(&self, name: &str) -> (r: Option<&Variable>)
        requires
            unique_names(self@.vars),
        ensures
            match r {
                Some(v) => lookup(self@.vars, name@) == Some(v@),
                None => lookup(self@.vars, name@) is None,
            },
    {
        match self.position(name) {
            Some(i) => {
                proof {
                    lemma_index_of_name(self@.vars, i as int);
                }
                Some(&self.variables[i].1)
            },
            None => None,
        }
    }

    pub fn find_variable_mut(&mut self, name: &str) -> (r: Option<&mut Variable>)
        requires
            unique_names(old(self)@.vars),
        ensures
            match r {
                Some(v) => {
                    &&& has_name(old(self)@.vars, name@)
                    &&& lookup(old(self)@.vars, name@) == Some(v@)
                    &&& final(self)@ == (ContextView {
                        vars: old(self)@.vars.update(
                            index_of_name(old(self)@.vars, name@),
                            (name@, final(v)@),
                        ),
                        ..old(self)@
                    })
                },
                None => !has_name(old(self)@.vars, name@) && final(self)@ == old(self)@,
            },
    {
        match self.position(name) {
            Some(i) => {
                proof {
                    lemma_index_of_name(self@.vars, i as int);
                }
                proof {
                    lemma_vars_view_update(self.variables@, i as int);
                }
                let entry = &mut self.variables[i];
                Some(&mut entry.1)
            },
            None => None,
        }
    }
}


/// Binding `name` in a context is refused when it names a read-only variable there.
pub open spec fn bind_refused(c: ContextView, name: Seq<char>) -> bool {
    match lookup(c.vars, name) {
        Some(v) => v.read_only,
        None => false,
    }
}

/// The variable that binding `name` to `value` in `c` leaves behind: the existing one with the
/// new value, made visible, or a fresh string variable.
pub open spec fn var_after_bind(c: ContextView, name: Seq<char>, value: Seq<char>) -> VariableView {
    match lookup(c.vars, name) {
        Some(v) => VariableView { value, visible: true, ..v },
        None => scalar_string(value),
    }
}

/// Binding a new value to an existing writable variable changes only its value and makes it
/// visible: whether it is read-only and whether it is exported stay as they were. A name
/// without a variable gets a fresh one that is neither read-only nor exported.
pub proof fn law_bind_changes_only_the_value(c: ContextView, name: Seq<char>, value: Seq<char>)
    ensures
        ({
            let w = var_after_bind(c, name, value);
            &&& w.value == value
            &&& w.visible
            &&& match lookup(c.vars, name) {
                Some(v) => w.read_only == v.read_only && w.exported == v.exported && (!v.read_only
                    ==> !bind_refused(c, name)),
                None => !w.read_only && !w.exported && !bind_refused(c, name),
            }
        }),
{
}

/// The context after binding `name` to a variable `v`: the entry is replaced in place, or
/// appended when the name is new.
pub open spec fn ctx_after_bind(c: ContextView, name: Seq<char>, v: VariableView) -> ContextView {
    if has_name(c.vars, name) {
        ContextView { vars: c.vars.update(index_of_name(c.vars, name), (name, v)), ..c }
    } else {
        ContextView { vars: c.vars.push((name, v)), ..c }
    }
}

/// The exported variables of `vars`, in order, as name and value.
pub open spec fn exported_pairs(vars: Seq<(Seq<char>, VariableView)>) -> Seq<(Seq<char>, Seq<char>)>
    decreases vars.len(),
{
    if vars.len() == 0 {
        Seq::empty()
    } else {
        let rest = exported_pairs(vars.drop_last());
        let e = vars.last();
        if e.1.exported {
            rest.push((e.0, e.1.value))
        } else {
            rest
        }
    }
}

/// Names and values of borrowed entries.
pub open spec fn refs_view(s: Seq<(&String, &Variable)>) -> Seq<(Seq<char>, VariableView)> {
    s.map_values(|e: (&String, &Variable)| (e.0@, e.1@))
}

/// Names and values of owned string pairs.
pub open spec fn pairs_view(s: Seq<(String, String)>) -> Seq<(Seq<char>, Seq<char>)> {
    s.map_values(|e: (String, String)| (e.0@, e.1@))
}

/// Changing the value of an entry keeps the names unique.
proof fn lemma_unique_after_update(vars: Seq<(Seq<char>, VariableView)>, i: int, v: VariableView)
    requires
        unique_names(vars),
        0 <= i < vars.len(),
    ensures
        unique_names(vars.update(i, (vars[i].0, v))),
{
    let u = vars.update(i, (vars[i].0, v));
    assert forall|a: int, b: int| 0 <= a < b < u.len() implies #[trigger] u[a].0 != #[trigger] u[b].0 by {
        assert(u[a].0 == vars[a].0);
        assert(u[b].0 == vars[b].0);
    }
}

/// Appending an entry under a new name keeps the names unique.
proof fn lemma_unique_after_push(vars: Seq<(Seq<char>, VariableView)>, name: Seq<char>, v: VariableView)
    requires
        unique_names(vars),
        !has_name(vars, name),
    ensures
        unique_names(vars.push((name, v))),
{
    let u = vars.push((name, v));
    assert forall|a: int, b: int| 0 <= a < b < u.len() implies #[trigger] u[a].0 != #[trigger] u[b].0 by {
        if b == vars.len() {
            assert(vars[a].0 == u[a].0);
        } else {
            assert(u[a].0 == vars[a].0);
            assert(u[b].0 == vars[b].0);
        }
    }
}

/// Binding keeps the names of a context unique, whatever the bound variable becomes.
pub proof fn lemma_bind_keeps_unique(c: ContextView, name: Seq<char>, v: VariableView)
    requires
        unique_names(c.vars),
    ensures
        unique_names(ctx_after_bind(c, name, v).vars),
{
    if has_name(c.vars, name) {
        let i = index_of_name(c.vars, name);
        lemma_unique_after_update(c.vars, i, v);
    } else {
        lemma_unique_after_push(c.vars, name, v);
    }
}

impl Context {
    /// Bind `name` to `value`: an existing variable gets the value and becomes visible, unless
    /// it is read-only; a new name gets a fresh string variable.
    pub fn bind_variable(&mut self, name: &str, value: &str) -> (r: Result<&mut Variable, VariableError>)
        requires
            unique_names(old(self)@.vars),
        ensures
            r is Err <==> bind_refused(old(self)@, name@),
            match r {
                Ok(v) => {
                    &&& v@ == var_after_bind(old(self)@, name@, value@)
                    &&& final(self)@ == ctx_after_bind(old(self)@, name@, final(v)@)
                },
                Err(e) => {
                    &&& e matches VariableError::VariableIsReadOnly(n) && n@ == name@
                    &&& final(self)@ == old(self)@
                },
            },
    {
        match self.position(name) {
            Some(i) => {
                proof {
                    lemma_index_of_name(self@.vars, i as int);
                    lemma_vars_view_update(self.variables@, i as int);
                }
                if !self.variables[i].1.is_writeable() {
                    return Err(VariableError::VariableIsReadOnly(name.to_owned()));
                }
                let entry = &mut self.variables[i];
                let var = &mut entry.1;
                var.set_value(value);
                var.set_visible();
                Ok(var)
            },
            None => {
                let ghost old_vars = self.variables@;
                self.variables.push((name.to_owned(), Variable::new_scalar_string(value)));
                let last = self.variables.len() - 1;
                proof {
                    lemma_vars_view_update(self.variables@, last as int);
                    assert(vars_view(self.variables@) =~= vars_view(old_vars).push(
                        (name@, scalar_string(value@)),
                    ));
                    assert forall|x: (String, Variable)| x.0@ == name@ implies #[trigger] vars_view(
                        self.variables@.update(last as int, x),
                    ) == vars_view(old_vars).push((name@, x.1@)) by {
                        assert(vars_view(self.variables@.update(last as int, x)) =~= vars_view(
                            old_vars,
                        ).push((name@, x.1@)));
                    }
                }
                let entry = &mut self.variables[last];
                Ok(&mut entry.1)
            },
        }
    }

    /// The variables of this context, in order.
    pub fn iter(&self) -> (r: Vec<(&String, &Variable)>)
        ensures
            refs_view(r@) == self@.vars,
    {
        let mut r: Vec<(&String, &Variable)> = Vec::new();
        let mut i: usize = 0;
        while i < self.variables.len()
            invariant
                i <= self.variables@.len(),
                refs_view(r@) == self@.vars.take(i as int),
            decreases self.variables@.len() - i,
        {
            let e = &self.variables[i];
            let ghost before = r@;
            r.push((&e.0, &e.1));
            proof {
                assert(self@.vars[i as int] == (e.0@, e.1@));
                assert(refs_view(r@) =~= refs_view(before).push((e.0@, e.1@)));
                assert(self@.vars.take(i as int + 1) =~= self@.vars.take(i as int).push(self@.vars[i as int]));
            }
            i = i + 1;
        }
        proof {
            assert(self@.vars.take(i as int) =~= self@.vars);
        }
        r
    }

    /// The exported variables of this context, in order, as name and value.
    pub fn iter_exported(&self) -> (r: Vec<(String, String)>)
        ensures
            pairs_view(r@) == exported_pairs(self@.vars),
    {
        let mut r: Vec<(String, String)> = Vec::new();
        let mut i: usize = 0;
        while i < self.variables.len()
            invariant
                i <= self.variables@.len(),
                pairs_view(r@) == exported_pairs(self@.vars.take(i as int)),
            decreases self.variables@.len() - i,
        {
            let e = &self.variables[i];
            proof {
                assert(self@.vars.take(i as int + 1).drop_last() =~= self@.vars.take(i as int));
            }
            if e.1.is_exported() {
                r.push((e.0.clone(), e.1.as_string().clone()));
                proof {
                    assert(pairs_view(r@) =~= exported_pairs(self@.vars.take(i as int + 1)));
                }
            }
            i = i + 1;
        }
        proof {
            assert(self@.vars.take(i as int) =~= self@.vars);
        }
        r
    }
}


/// Stack of contexts / frames, i.e. dictionaries of variables.
#[derive(Debug)]
pub struct ContextStack {
    frames: Vec<Context>,
}

/// The frames of a stack, bottom first.
pub open spec fn frames_view(s: Seq<Context>) -> Seq<ContextView> {
    s.map_values(|c: Context| c@)
}

impl View for ContextStack {
    type V = Seq<ContextView>;

    closed spec fn view(&self) -> Seq<ContextView> {
        frames_view(self.frames@)
    }
}

/// A well-formed stack: a global frame at the bottom, and unique names in every frame.
pub open spec fn stack_wf(frames: Seq<ContextView>) -> bool {
    &&& frames.len() >= 1
    &&& frames[0].ctx_type == ContextType::Global
    &&& forall|i: int| 0 <= i < frames.len() ==> unique_names(#[trigger] frames[i].vars)
}

/// The index of the topmost frame that holds `name`, or -1.
pub open spec fn top_frame_with(frames: Seq<ContextView>, name: Seq<char>) -> int
    decreases frames.len(),
{
    if frames.len() == 0 {
        -1
    } else if has_name(frames.last().vars, name) {
        frames.len() - 1
    } else {
        top_frame_with(frames.drop_last(), name)
    }
}

/// The variable that `name` denotes: the one in the topmost frame that holds the name.
pub open spec fn stack_lookup(frames: Seq<ContextView>, name: Seq<char>) -> Option<VariableView> {
    let t = top_frame_with(frames, name);
    if t < 0 {
        None
    } else {
        lookup(frames[t].vars, name)
    }
}

/// The frame in which `name` is bound: the topmost that holds it, else the global frame.
pub open spec fn bind_frame(frames: Seq<ContextView>, name: Seq<char>) -> int {
    let t = top_frame_with(frames, name);
    if t < 0 {
        0
    } else {
        t
    }
}

/// The index of the topmost temporary frame, or -1.
pub open spec fn top_temp(frames: Seq<ContextView>) -> int
    decreases frames.len(),
{
    if frames.len() == 0 {
        -1
    } else if frames.last().ctx_type == ContextType::Temp {
        frames.len() - 1
    } else {
        top_temp(frames.drop_last())
    }
}

/// The frames left when the temporary frames on top are dropped.
pub open spec fn drop_temps(frames: Seq<ContextView>) -> Seq<ContextView>
    decreases frames.len(),
{
    if frames.len() > 0 && frames.last().ctx_type == ContextType::Temp {
        drop_temps(frames.drop_last())
    } else {
        frames
    }
}

/// All variables of the stack, the top frame's first, each frame's in order.
pub open spec fn stack_entries(frames: Seq<ContextView>) -> Seq<(Seq<char>, VariableView)>
    decreases frames.len(),
{
    if frames.len() == 0 {
        Seq::empty()
    } else {
        stack_entries(frames.drop_first()) + frames[0].vars
    }
}

/// All exported variables of the stack, the top frame's first, as name and value.
pub open spec fn stack_exported(frames: Seq<ContextView>) -> Seq<(Seq<char>, Seq<char>)>
    decreases frames.len(),
{
    if frames.len() == 0 {
        Seq::empty()
    } else {
        stack_exported(frames.drop_first()) + exported_pairs(frames[0].vars)
    }
}

/// The empty temporary context.
pub open spec fn empty_temp() -> ContextView {
    ContextView { name: Seq::empty(), ctx_type: ContextType::Temp, vars: Seq::empty() }
}

proof fn lemma_top_frame_range(frames: Seq<ContextView>, name: Seq<char>)
    ensures
        -1 <= top_frame_with(frames, name) < frames.len(),
        top_frame_with(frames, name) >= 0 ==> has_name(frames[top_frame_with(frames, name)].vars, name),
        forall|j: int| top_frame_with(frames, name) < j < frames.len() ==> !has_name(#[trigger] frames[j].vars, name),
    decreases frames.len(),
{
    if frames.len() > 0 && !has_name(frames.last().vars, name) {
        lemma_top_frame_range(frames.drop_last(), name);
        assert forall|j: int| top_frame_with(frames, name) < j < frames.len() implies !has_name(#[trigger] frames[j].vars, name) by {
            if j < frames.len() - 1 {
                assert(frames[j] == frames.drop_last()[j]);
            }
        }
    }
}

proof fn lemma_top_frame_is(frames: Seq<ContextView>, name: Seq<char>, t: int)
    requires
        -1 <= t < frames.len(),
        t >= 0 ==> has_name(frames[t].vars, name),
        forall|j: int| t < j < frames.len() ==> !has_name(#[trigger] frames[j].vars, name),
    ensures
        top_frame_with(frames, name) == t,
    decreases frames.len(),
{
    if frames.len() > 0 && t < frames.len() - 1 {
        assert(!has_name(frames[frames.len() - 1].vars, name));
        let d = frames.drop_last();
        assert forall|j: int| t < j < d.len() implies !has_name(#[trigger] d[j].vars, name) by {
            assert(d[j] == frames[j]);
        }
        lemma_top_frame_is(d, name, t);
    }
}

proof fn lemma_top_temp_range(frames: Seq<ContextView>)
    ensures
        -1 <= top_temp(frames) < frames.len(),
        top_temp(frames) >= 0 ==> frames[top_temp(frames)].ctx_type == ContextType::Temp,
        forall|j: int| top_temp(frames) < j < frames.len() ==> (#[trigger] frames[j]).ctx_type != ContextType::Temp,
    decreases frames.len(),
{
    if frames.len() > 0 && frames.last().ctx_type != ContextType::Temp {
        lemma_top_temp_range(frames.drop_last());
        assert forall|j: int| top_temp(frames) < j < frames.len() implies (#[trigger] frames[j]).ctx_type != ContextType::Temp by {
            if j < frames.len() - 1 {
                assert(frames[j] == frames.drop_last()[j]);
            }
        }
    }
}

proof fn lemma_top_temp_is(frames: Seq<ContextView>, t: int)
    requires
        -1 <= t < frames.len(),
        t >= 0 ==> frames[t].ctx_type == ContextType::Temp,
        forall|j: int| t < j < frames.len() ==> (#[trigger] frames[j]).ctx_type != ContextType::Temp,
    ensures
        top_temp(frames) == t,
    decreases frames.len(),
{
    if frames.len() > 0 && t < frames.len() - 1 {
        assert(frames[frames.len() - 1].ctx_type != ContextType::Temp);
        let d = frames.drop_last();
        assert forall|j: int| t < j < d.len() implies (#[trigger] d[j]).ctx_type != ContextType::Temp by {
            assert(d[j] == frames[j]);
        }
        lemma_top_temp_is(d, t);
    }
}

/// Replacing one frame replaces its view.
proof fn lemma_frames_view_update(s: Seq<Context>, i: int)
    requires
        0 <= i < s.len(),
    ensures
        forall|x: Context| #[trigger] frames_view(s.update(i, x)) == frames_view(s).update(i, x@),
{
    assert forall|x: Context| #[trigger] frames_view(s.update(i, x)) == frames_view(s).update(i, x@) by {
        assert(frames_view(s.update(i, x)) =~= frames_view(s).update(i, x@));
    }
}

/// Binding in frame `t` keeps the stack well-formed, whatever the bound variable becomes.
proof fn lemma_stack_bind_wf(frames: Seq<ContextView>, t: int, name: Seq<char>)
    requires
        stack_wf(frames),
        0 <= t < frames.len(),
    ensures
        forall|v: VariableView| stack_wf(
            #[trigger] frames.update(t, ctx_after_bind(frames[t], name, v)),
        ),
{
    assert forall|v: VariableView| stack_wf(#[trigger] frames.update(t, ctx_after_bind(frames[t], name, v))) by {
        let u = frames.update(t, ctx_after_bind(frames[t], name, v));
        lemma_bind_keeps_unique(frames[t], name, v);
        assert forall|i: int| 0 <= i < u.len() implies unique_names(#[trigger] u[i].vars) by {
            if i != t {
                assert(u[i] == frames[i]);
            }
        }
    }
}

/// Binding `name` in a context leaves every other name as it was.
proof fn lemma_bind_other_name(c: ContextView, name: Seq<char>, v: VariableView, other: Seq<char>)
    requires
        unique_names(c.vars),
        other != name,
    ensures
        has_name(ctx_after_bind(c, name, v).vars, other) == has_name(c.vars, other),
        lookup(ctx_after_bind(c, name, v).vars, other) == lookup(c.vars, other),
{
    let a = ctx_after_bind(c, name, v).vars;
    lemma_bind_keeps_unique(c, name, v);
    if has_name(c.vars, other) {
        let i = index_of_name(c.vars, other);
        lemma_index_of_name(c.vars, i);
        assert(a[i].0 == other);
        lemma_index_of_name(a, i);
    }
    if has_name(a, other) {
        let i = index_of_name(a, other);
        assert(a[i].0 == other);
        assert(i < c.vars.len() && c.vars[i].0 == other);
    }
}

/// Binding `name` in a context makes the name denote the bound variable there.
proof fn lemma_bind_same_name(c: ContextView, name: Seq<char>, v: VariableView)
    requires
        unique_names(c.vars),
    ensures
        has_name(ctx_after_bind(c, name, v).vars, name),
        lookup(ctx_after_bind(c, name, v).vars, name) == Some(v),
{
    let a = ctx_after_bind(c, name, v).vars;
    lemma_bind_keeps_unique(c, name, v);
    let i = if has_name(c.vars, name) {
        index_of_name(c.vars, name)
    } else {
        c.vars.len() as int
    };
    assert(a[i] == (name, v));
    lemma_index_of_name(a, i);
}

/// Two stacks whose frames hold `name` in the same places agree on the topmost such frame.
proof fn lemma_top_frame_same(f: Seq<ContextView>, g: Seq<ContextView>, name: Seq<char>)
    requires
        f.len() == g.len(),
        forall|j: int| 0 <= j < f.len() ==> has_name(#[trigger] f[j].vars, name) == has_name(g[j].vars, name),
    ensures
        top_frame_with(f, name) == top_frame_with(g, name),
{
    lemma_top_frame_range(f, name);
    let t = top_frame_with(f, name);
    assert forall|j: int| t < j < g.len() implies !has_name(#[trigger] g[j].vars, name) by {
        assert(!has_name(f[j].vars, name));
    }
    lemma_top_frame_is(g, name, t);
}

/// After `name` is bound in the frame where binding puts it, the name denotes the bound
/// variable: a read gives back what was written.
pub proof fn law_lookup_after_bind(frames: Seq<ContextView>, name: Seq<char>, v: VariableView)
    requires
        stack_wf(frames),
    ensures
        ({
            let k = bind_frame(frames, name);
            stack_lookup(frames.update(k, ctx_after_bind(frames[k], name, v)), name) == Some(v)
        }),
{
    let k = bind_frame(frames, name);
    lemma_top_frame_range(frames, name);
    let n = frames.update(k, ctx_after_bind(frames[k], name, v));
    lemma_bind_same_name(frames[k], name, v);
    assert forall|j: int| k < j < n.len() implies !has_name(#[trigger] n[j].vars, name) by {
        assert(n[j] == frames[j]);
    }
    lemma_top_frame_is(n, name, k);
}

/// Binding `name` leaves what every other name denotes unchanged.
pub proof fn law_bind_keeps_other_names(
    frames: Seq<ContextView>,
    name: Seq<char>,
    v: VariableView,
    other: Seq<char>,
)
    requires
        stack_wf(frames),
        other != name,
    ensures
        ({
            let k = bind_frame(frames, name);
            stack_lookup(frames.update(k, ctx_after_bind(frames[k], name, v)), other)
                == stack_lookup(frames, other)
        }),
{
    let k = bind_frame(frames, name);
    lemma_top_frame_range(frames, name);
    let n = frames.update(k, ctx_after_bind(frames[k], name, v));
    lemma_bind_other_name(frames[k], name, v, other);
    assert forall|j: int| 0 <= j < frames.len() implies has_name(#[trigger] frames[j].vars, other)
        == has_name(n[j].vars, other) by {
        if j != k {
            assert(n[j] == frames[j]);
        }
    }
    lemma_top_frame_same(frames, n, other);
    lemma_top_frame_range(frames, other);
    let t = top_frame_with(frames, other);
    if t >= 0 && t != k {
        assert(n[t] == frames[t]);
    }
}

/// Dropping the temporary frames after a temporary frame was pushed gives the same frames as
/// dropping them before: a temporary context leaves nothing behind.
pub proof fn law_temp_context_leaves_nothing(frames: Seq<ContextView>, temp: ContextView)
    requires
        temp.ctx_type == ContextType::Temp,
    ensures
        drop_temps(frames.push(temp)) == drop_temps(frames),
{
    assert(frames.push(temp).drop_last() =~= frames);
}

/// Dropping temporary frames never drops the global frame at the bottom, and leaves a
/// well-formed stack whose top frame is not temporary.
pub proof fn law_drop_temps_keeps_global(frames: Seq<ContextView>)
    requires
        stack_wf(frames),
    ensures
        stack_wf(drop_temps(frames)),
        drop_temps(frames)[0] == frames[0],
        drop_temps(frames).last().ctx_type != ContextType::Temp,
        1 <= drop_temps(frames).len() <= frames.len(),
        drop_temps(frames) == frames.take(drop_temps(frames).len() as int),
    decreases frames.len(),
{
    if frames.last().ctx_type == ContextType::Temp {
        let d = frames.drop_last();
        assert(frames.len() > 1);
        assert forall|i: int| 0 <= i < d.len() implies unique_names(#[trigger] d[i].vars) by {
            assert(d[i] == frames[i]);
        }
        law_drop_temps_keeps_global(d);
        assert(drop_temps(d) == d.take(drop_temps(d).len() as int));
        assert(d.take(drop_temps(d).len() as int) =~= frames.take(drop_temps(d).len() as int));
    } else {
        assert(frames.take(frames.len() as int) =~= frames);
    }
}

/// Binding `name` to `value` in the stack is refused.
pub open spec fn stack_bind_refused(frames: Seq<ContextView>, name: Seq<char>) -> bool {
    bind_refused(frames[bind_frame(frames, name)], name)
}

/// The stack after `name` is bound to `value` and the variable is exported.
pub open spec fn after_import_one(frames: Seq<ContextView>, name: Seq<char>, value: Seq<char>) -> Seq<ContextView> {
    let k = bind_frame(frames, name);
    frames.update(
        k,
        ctx_after_bind(frames[k], name, VariableView { exported: true, ..var_after_bind(frames[k], name, value) }),
    )
}

/// Importing `pairs` in order: the stack afterwards, and whether every binding succeeded. The
/// first refused binding stops the import.
pub open spec fn import_fold(frames: Seq<ContextView>, pairs: Seq<(Seq<char>, Seq<char>)>) -> (Seq<ContextView>, bool)
    decreases pairs.len(),
{
    if pairs.len() == 0 {
        (frames, true)
    } else if stack_bind_refused(frames, pairs[0].0) {
        (frames, false)
    } else {
        import_fold(after_import_one(frames, pairs[0].0, pairs[0].1), pairs.drop_first())
    }
}

impl ContextStack {
    /// A stack with only the global frame, which is empty.
    pub fn new() -> (s: Self)
        ensures
            stack_wf(s@),
            s@ == seq![
                ContextView {
                    name: Seq::empty(),
                    ctx_type: ContextType::Global,
                    vars: Seq::empty(),
                },
            ],
    {
        let g = Context::new(ContextType::Global, "");
        let mut frames: Vec<Context> = Vec::new();
        frames.push(g);
        let s = Self { frames };
        proof {
            reveal_strlit("");
            assert(""@ =~= Seq::<char>::empty());
            assert(s@[0] == s.frames@[0]@);
            assert(s@ =~= seq![
                ContextView {
                    name: Seq::empty(),
                    ctx_type: ContextType::Global,
                    vars: Seq::empty(),
                },
            ]);
        }
        s
    }

    /// The index of the topmost frame that holds `name`.
    fn top_frame_index(&self, name: &str) -> (r: Option<usize>)
        ensures
            match r {
                Some(i) => i as int == top_frame_with(self@, name@),
                None => top_frame_with(self@, name@) == -1,
            },
    {
        let mut i: usize = self.frames.len();
        while i > 0
            invariant
                i <= self.frames@.len(),
                self@.len() == self.frames@.len(),
                forall|j: int| i <= j < self@.len() ==> !has_name(#[trigger] self@[j].vars, name@),
            decreases i,
        {
            i = i - 1;
            if self.frames[i].has_variable(name) {
                proof {
                    lemma_top_frame_is(self@, name@, i as int);
                }
                return Some(i);
            }
        }
        proof {
            lemma_top_frame_is(self@, name@, -1);
        }
        None
    }

    /// The variable that `name` denotes, searching from the top frame down.
    pub fn find_variable(&self, name: &str) -> (r: Option<&Variable>)
        requires
            stack_wf(self@),
        ensures
            match r {
                Some(v) => stack_lookup(self@, name@) == Some(v@),
                None => stack_lookup(self@, name@) is None,
            },
    {
        proof {
            lemma_top_frame_range(self@, name@);
        }
        match self.top_frame_index(name) {
            Some(i) => {
                proof {
                    assert(self@[i as int] == self.frames@[i as int]@);
                }
                self.frames[i].find_variable(name)
            },
            None => None,
        }
    }

    /// The variable that `name` denotes, to be changed in place.
    pub fn find_variable_mut(&mut self, name: &str) -> (r: Option<&mut Variable>)
        requires
            stack_wf(old(self)@),
        ensures
            match r {
                Some(v) => {
                    let t = top_frame_with(old(self)@, name@);
                    &&& 0 <= t
                    &&& stack_lookup(old(self)@, name@) == Some(v@)
                    &&& final(self)@ == old(self)@.update(
                        t,
                        ctx_after_bind(old(self)@[t], name@, final(v)@),
                    )
                    &&& stack_wf(final(self)@)
                },
                None => stack_lookup(old(self)@, name@) is None && final(self)@ == old(self)@,
            },
    {
        match self.top_frame_index(name) {
            Some(i) => {
                proof {
                    lemma_top_frame_range(self@, name@);
                    lemma_frames_view_update(self.frames@, i as int);
                    lemma_stack_bind_wf(self@, i as int, name@);
                }
                let frame = &mut self.frames[i];
                frame.find_variable_mut(name)
            },
            None => None,
        }
    }

    /// Bind `name` to `value` in the topmost frame that holds it, else in the global frame.
    pub fn bind_variable(&mut self, name: &str, value: &str) -> (r: Result<&mut Variable, VariableError>)
        requires
            stack_wf(old(self)@),
        ensures
            ({
                let k = bind_frame(old(self)@, name@);
                &&& 0 <= k < old(self)@.len()
                &&& (r is Err <==> bind_refused(old(self)@[k], name@))
                &&& match r {
                    Ok(v) => {
                        &&& v@ == var_after_bind(old(self)@[k], name@, value@)
                        &&& final(self)@ == old(self)@.update(
                            k,
                            ctx_after_bind(old(self)@[k], name@, final(v)@),
                        )
                        &&& stack_wf(final(self)@)
                    },
                    Err(e) => {
                        &&& e matches VariableError::VariableIsReadOnly(n) && n@ == name@
                        &&& final(self)@ == old(self)@
                    },
                }
            }),
    {
        let k: usize = match self.top_frame_index(name) {
            Some(i) => i,
            None => 0,
        };
        proof {
            lemma_top_frame_range(self@, name@);
            lemma_frames_view_update(self.frames@, k as int);
            lemma_stack_bind_wf(self@, k as int, name@);
        }
        let frame = &mut self.frames[k];
        frame.bind_variable(name, value)
    }

    /// The text of the variable that `name` denotes.
    pub fn variable_as_str(&self, name: &str) -> (r: Result<&str, VariableError>)
        requires
            stack_wf(self@),
        ensures
            r is Ok <==> stack_lookup(self@, name@) is Some,
            match r {
                Ok(s) => s@ == stack_lookup(self@, name@)->0.value,
                Err(e) => e matches VariableError::UnknownVariable(n) && n@ == name@,
            },
    {
        match self.find_variable(name) {
            Some(v) => Ok(v.as_str()),
            None => Err(VariableError::UnknownVariable(name.to_owned())),
        }
    }

    /// The variable that `name` denotes; a name that no frame holds is bound to the empty
    /// string in the global frame first.
    pub fn find_variable_or_create_global(&mut self, name: &str) -> (r: Result<&mut Variable, VariableError>)
        requires
            stack_wf(old(self)@),
        ensures
            r is Ok,
            match r {
                Ok(v) => {
                    let k = bind_frame(old(self)@, name@);
                    &&& v@ == match stack_lookup(old(self)@, name@) {
                        Some(x) => x,
                        None => scalar_string(Seq::empty()),
                    }
                    &&& final(self)@ == old(self)@.update(
                        k,
                        ctx_after_bind(old(self)@[k], name@, final(v)@),
                    )
                    &&& stack_wf(final(self)@)
                },
                Err(_) => true,
            },
    {
        proof {
            lemma_top_frame_range(self@, name@);
        }
        match self.top_frame_index(name) {
            Some(i) => {
                proof {
                    lemma_frames_view_update(self.frames@, i as int);
                    lemma_stack_bind_wf(self@, i as int, name@);
                    assert(self@[i as int] == self.frames@[i as int]@);
                }
                let frame = &mut self.frames[i];
                match frame.find_variable_mut(name) {
                    Some(v) => Ok(v),
                    None => Err(VariableError::UnknownVariable(name.to_owned())),
                }
            },
            None => {
                proof {
                    lemma_frames_view_update(self.frames@, 0);
                    lemma_stack_bind_wf(self@, 0, name@);
                    reveal_strlit("");
                    assert(""@ =~= Seq::<char>::empty());
                    assert(self@[0] == self.frames@[0]@);
                    assert(!has_name(self@[0].vars, name@));
                }
                let frame = &mut self.frames[0];
                frame.bind_variable(name, "")
            },
        }
    }

    /// The global frame, at the bottom of the stack.
    pub fn get_global_context(&mut self) -> (r: Result<&mut Context, VariableError>)
        requires
            stack_wf(old(self)@),
        ensures
            r is Ok,
            match r {
                Ok(c) => c@ == old(self)@[0] && final(self)@ == old(self)@.update(0, final(c)@),
                Err(_) => true,
            },
    {
        proof {
            lemma_frames_view_update(self.frames@, 0);
        }
        Ok(&mut self.frames[0])
    }

    /// The topmost temporary frame; a new empty one is pushed when there is none.
    pub fn create_temp_context(&mut self) -> (c: &mut Context)
        requires
            stack_wf(old(self)@),
        ensures
            ({
                let t = top_temp(old(self)@);
                if t >= 0 {
                    &&& c@ == old(self)@[t]
                    &&& final(self)@ == old(self)@.update(t, final(c)@)
                } else {
                    &&& c@ == empty_temp()
                    &&& final(self)@ == old(self)@.push(final(c)@)
                }
            }),
    {
        let mut i: usize = self.frames.len();
        while i > 0
            invariant
                i <= self.frames@.len(),
                self.frames@ == old(self).frames@,
                self@.len() == self.frames@.len(),
                forall|j: int| i <= j < self@.len() ==> (#[trigger] self@[j]).ctx_type != ContextType::Temp,
            decreases i,
        {
            i = i - 1;
            if self.frames[i].is_temp() {
                proof {
                    lemma_top_temp_is(self@, i as int);
                    lemma_frames_view_update(self.frames@, i as int);
                    assert(self@[i as int] == self.frames@[i as int]@);
                }
                return &mut self.frames[i];
            }
        }
        proof {
            lemma_top_temp_is(self@, -1);
        }
        let ghost old_frames = self.frames@;
        self.frames.push(Context::new(ContextType::Temp, ""));
        let last = self.frames.len() - 1;
        proof {
            reveal_strlit("");
            assert(""@ =~= Seq::<char>::empty());
            assert(self.frames@[last as int]@ =~= empty_temp());
            lemma_frames_view_update(self.frames@, last as int);
            assert(self.frames@.update(last as int, self.frames@[last as int]) == self.frames@);
            assert forall|x: Context| #[trigger] frames_view(self.frames@.update(last as int, x)) == frames_view(old_frames).push(x@) by {
                assert(frames_view(self.frames@.update(last as int, x)) =~= frames_view(old_frames).push(x@));
            }
        }
        &mut self.frames[last]
    }

    /// Drop the temporary frames on top of the stack.
    pub fn drop_temp_context(&mut self)
        requires
            stack_wf(old(self)@),
        ensures
            final(self)@ == drop_temps(old(self)@),
            stack_wf(final(self)@),
    {
        loop
            invariant
                stack_wf(self@),
                drop_temps(self@) == drop_temps(old(self)@),
            decreases self.frames@.len(),
        {
            let n = self.frames.len();
            if self.frames[n - 1].is_temp() {
                let ghost before = self.frames@;
                self.frames.pop();
                proof {
                    assert(self@ =~= frames_view(before).drop_last());
                    assert(n > 1);
                    assert forall|i: int| 0 <= i < self@.len() implies unique_names(#[trigger] self@[i].vars) by {
                        assert(self@[i] == frames_view(before)[i]);
                    }
                }
            } else {
                return;
            }
        }
    }

    /// All variables, the top frame's first, each frame's in order.
    pub fn iter(&self) -> (r: Vec<(&String, &Variable)>)
        ensures
            refs_view(r@) == stack_entries(self@),
    {
        let mut r: Vec<(&String, &Variable)> = Vec::new();
        let mut i: usize = self.frames.len();
        while i > 0
            invariant
                i <= self.frames@.len(),
                self@.len() == self.frames@.len(),
                refs_view(r@) == stack_entries(self@.subrange(i as int, self@.len() as int)),
            decreases i,
        {
            i = i - 1;
            let part = self.frames[i].iter();
            let ghost before = r@;
            let mut j: usize = 0;
            while j < part.len()
                invariant
                    j <= part@.len(),
                    refs_view(r@) == refs_view(before) + refs_view(part@).take(j as int),
                decreases part@.len() - j,
            {
                let ghost r0 = r@;
                r.push(part[j]);
                proof {
                    assert(refs_view(r@) =~= refs_view(r0).push(refs_view(part@)[j as int]));
                    assert(refs_view(part@).take(j + 1) =~= refs_view(part@).take(j as int).push(
                        refs_view(part@)[j as int],
                    ));
                }
                j = j + 1;
            }
            proof {
                assert(refs_view(part@).take(j as int) =~= refs_view(part@));
                let sub = self@.subrange(i as int, self@.len() as int);
                assert(sub.drop_first() =~= self@.subrange(i + 1, self@.len() as int));
                assert(sub[0] == self@[i as int]);
            }
        }
        proof {
            assert(self@.subrange(0, self@.len() as int) =~= self@);
        }
        r
    }

    /// All exported variables, the top frame's first, as name and value.
    pub fn iter_exported(&self) -> (r: Vec<(String, String)>)
        ensures
            pairs_view(r@) == stack_exported(self@),
    {
        let mut r: Vec<(String, String)> = Vec::new();
        let mut i: usize = self.frames.len();
        while i > 0
            invariant
                i <= self.frames@.len(),
                self@.len() == self.frames@.len(),
                pairs_view(r@) == stack_exported(self@.subrange(i as int, self@.len() as int)),
            decreases i,
        {
            i = i - 1;
            let mut part = self.frames[i].iter_exported();
            let ghost before = r@;
            let ghost pv = pairs_view(part@);
            r.append(&mut part);
            proof {
                assert(pairs_view(r@) =~= pairs_view(before) + pv);
                let sub = self@.subrange(i as int, self@.len() as int);
                assert(sub.drop_first() =~= self@.subrange(i + 1, self@.len() as int));
                assert(sub[0] == self@[i as int]);
            }
        }
        proof {
            assert(self@.subrange(0, self@.len() as int) =~= self@);
        }
        r
    }
}


impl ContextStack {
    /// Bind each name to its value and export it, in order; the first read-only variable
    /// met stops the import with an error.
    pub fn import_variables(&mut self, pairs: &Vec<(String, String)>) -> (r: Result<(), VariableError>)
        requires
            stack_wf(old(self)@),
        ensures
            (final(self)@, r is Ok) == import_fold(old(self)@, pairs_view(pairs@)),
            stack_wf(final(self)@),
    {
        let mut i: usize = 0;
        proof {
            assert(pairs_view(pairs@).skip(0) =~= pairs_view(pairs@));
        }
        while i < pairs.len()
            invariant
                i <= pairs@.len(),
                stack_wf(self@),
                import_fold(self@, pairs_view(pairs@).skip(i as int)) == import_fold(
                    old(self)@,
                    pairs_view(pairs@),
                ),
            decreases pairs@.len() - i,
        {
            let ghost rest = pairs_view(pairs@).skip(i as int);
            proof {
                assert(rest[0] == (pairs@[i as int].0@, pairs@[i as int].1@));
                assert(rest.drop_first() =~= pairs_view(pairs@).skip(i + 1));
            }
            let entry = &pairs[i];
            match self.bind_variable(entry.0.as_str(), entry.1.as_str()) {
                Ok(var) => {
                    var.set_exported(true);
                },
                Err(e) => {
                    return Err(e);
                },
            }
            i = i + 1;
        }
        proof {
            assert(pairs_view(pairs@).skip(i as int) =~= Seq::<(Seq<char>, Seq<char>)>::empty());
        }
        Ok(())
    }
}

} // verus!
