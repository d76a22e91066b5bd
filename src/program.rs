//! The program state that the interpreter threads through its states: the
//! statements, the variables, the value stack and the instruction pointer.
use vstd::prelude::*;
use crate::loader::views;
use crate::text::{decimal, format_int};

verus! {

/// What a `ProgramData` holds, as mathematical values.
pub struct Machine {
    /// The statements, fixed after loading.
    pub code: Seq<Seq<char>>,
    /// Each variable's name and value.
    pub vars: Map<Seq<char>, Seq<char>>,
    /// The value stack; its last element is the top.
    pub stack: Seq<Seq<char>>,
    /// The index of the next statement; `code.len()` once all have run.
    pub ip: nat,
}

/// The map that a list of (name, value) pairs gives, a later pair for a name
/// replacing an earlier one.
pub open spec fn pairs_map(s: Seq<(String, String)>) -> Map<Seq<char>, Seq<char>>
    decreases s.len(),
{
    if s.len() == 0 {
        Map::empty()
    } else {
        pairs_map(s.drop_last()).insert(s.last().0@, s.last().1@)
    }
}

/// The variables that a list of register values seeds: value `i` under the
/// name `i` written in decimal.
pub open spec fn seed_map(regs: Seq<Seq<char>>) -> Map<Seq<char>, Seq<char>>
    decreases regs.len(),
{
    if regs.len() == 0 {
        Map::empty()
    } else {
        seed_map(regs.drop_last()).insert(decimal(regs.len() - 1), regs.last())
    }
}

pub open spec fn keys_unique(s: Seq<(String, String)>) -> bool {
    forall|i: int, j: int| 0 <= i < s.len() && 0 <= j < s.len() && i != j ==> s[i].0@ != s[j].0@
}

proof fn lemma_pairs_map_has(s: Seq<(String, String)>, i: int)
    requires
        keys_unique(s),
        0 <= i < s.len(),
    ensures
        pairs_map(s).contains_key(s[i].0@),
        pairs_map(s)[s[i].0@] == s[i].1@,
    decreases s.len(),
{
    if i < s.len() - 1 {
        assert(s.drop_last()[i] == s[i]);
        lemma_pairs_map_has(s.drop_last(), i);
    }
}

proof fn lemma_pairs_map_lacks(s: Seq<(String, String)>, k: Seq<char>)
    requires
        forall|i: int| 0 <= i < s.len() ==> s[i].0@ != k,
    ensures
        !pairs_map(s).contains_key(k),
    decreases s.len(),
{
    if s.len() > 0 {
        assert(s.last() == s[s.len() - 1]);
        lemma_pairs_map_lacks(s.drop_last(), k);
    }
}

proof fn lemma_pairs_map_update(s: Seq<(String, String)>, i: int, p: (String, String))
    requires
        keys_unique(s),
        0 <= i < s.len(),
        p.0@ == s[i].0@,
    ensures
        pairs_map(s.update(i, p)) == pairs_map(s).insert(p.0@, p.1@),
    decreases s.len(),
{
    let t = s.update(i, p);
    if i == s.len() - 1 {
        assert(t.drop_last() =~= s.drop_last());
        let k = p.0@;
        assert forall|j: int| 0 <= j < s.drop_last().len() implies s.drop_last()[j].0@ != k by {
            assert(s.drop_last()[j] == s[j]);
        }
        lemma_pairs_map_lacks(s.drop_last(), k);
        assert(pairs_map(t) =~= pairs_map(s).insert(p.0@, p.1@));
    } else {
        assert(t.drop_last() =~= s.drop_last().update(i, p));
        lemma_pairs_map_update(s.drop_last(), i, p);
        assert(s.last().0@ != p.0@);
        assert(pairs_map(t) =~= pairs_map(s).insert(p.0@, p.1@));
    }
}

/// The state of a running program.
pub struct ProgramData {
    code: Vec<String>,
    vars: Vec<(String, String)>,
    stack: Vec<String>,
    index: usize,
}

impl View for ProgramData {
    type V = Machine;

    closed spec fn view(&self) -> Machine {
        Machine {
            code: views(self.code@),
            vars: pairs_map(self.vars@),
            stack: views(self.stack@),
            ip: self.index as nat,
        }
    }
}

impl ProgramData {
    /// Each variable stands once in the list of pairs.
    pub closed spec fn keys_ok(&self) -> bool {
        keys_unique(self.vars@)
    }

    /// The state is well formed: the instruction pointer is a statement's
    /// index or the number of statements.
    pub open spec fn wf(&self) -> bool {
        &&& self@.ip <= self@.code.len()
        &&& self.keys_ok()
    }

    /// A state with the given statements, variables (a later pair for a name
    /// replacing an earlier one), stack (its last element on top) and
    /// instruction pointer.
    pub fn new(code: Vec<String>, vars: Vec<(String, String)>, stack: Vec<String>, index: usize) -> (r:
        Self)
        requires
            index <= code@.len(),
        ensures
            r.wf(),
            r@ == (Machine {
                code: views(code@),
                vars: pairs_map(vars@),
                stack: views(stack@),
                ip: index as nat,
            }),
    {
        let mut data = ProgramData { code, vars: Vec::new(), stack, index };
        assert(data.vars@.take(0) =~= Seq::<(String, String)>::empty());
        let mut i: usize = 0;
        while i < vars.len()
            invariant
                data.wf(),
                data@.code == views(code@),
                data@.stack == views(stack@),
                data@.ip == index,
                i <= vars@.len(),
                data@.vars == pairs_map(vars@.take(i as int)),
            decreases vars@.len() - i,
        {
            let key = vars[i].0.clone();
            let value = vars[i].1.clone();
            data.set_var(key, value);
            assert(vars@.take(i + 1).drop_last() =~= vars@.take(i as int));
            i += 1;
        }
        assert(vars@.take(i as int) =~= vars@);
        data
    }

    /// The state in which a loaded program starts: register value `i` under
    /// the variable named `i` (in decimal), an empty stack, and the first
    /// statement next.
    pub fn from_segments(registers: Vec<String>, code: Vec<String>) -> (r: Self)
        ensures
            r.wf(),
            r@ == (Machine {
                code: views(code@),
                vars: seed_map(views(registers@)),
                stack: Seq::empty(),
                ip: 0,
            }),
    {
        let mut data = ProgramData::new(code, Vec::new(), Vec::new(), 0);
        assert(pairs_map(Seq::<(String, String)>::empty()) == Map::<Seq<char>, Seq<char>>::empty());
        assert(views(Seq::<String>::empty()) =~= Seq::<Seq<char>>::empty());
        assert(views(registers@).take(0) =~= Seq::<Seq<char>>::empty());
        let mut i: usize = 0;
        while i < registers.len()
            invariant
                data.wf(),
                data@.code == views(code@),
                data@.stack == Seq::<Seq<char>>::empty(),
                data@.ip == 0,
                i <= registers@.len(),
                data@.vars == seed_map(views(registers@).take(i as int)),
            decreases registers@.len() - i,
        {
            let name = format_int(i as i128);
            data.set_var(name, registers[i].clone());
            assert(views(registers@).take(i + 1).drop_last() =~= views(registers@).take(i as int));
            i += 1;
        }
        assert(views(registers@).take(i as int) =~= views(registers@));
        data
    }

    /// The statement at the instruction pointer, or `None` once all have run.
    pub fn get_code(&self) -> (r: Option<String>)
        requires
            self.wf(),
        ensures
            r is Some <==> self@.ip < self@.code.len(),
            r matches Some(s) ==> s@ == self@.code[self@.ip as int],
    {
        if self.index < self.code.len() {
            Some(self.code[self.index].clone())
        } else {
            None
        }
    }

    /// Moves the instruction pointer to `new_index`.
    pub fn set_index(&mut self, new_index: usize)
        requires
            old(self).wf(),
            new_index <= old(self)@.code.len(),
        ensures
            final(self).wf(),
            final(self)@ == (Machine { ip: new_index as nat, ..old(self)@ }),
    {
        self.index = new_index;
    }

    pub fn get_index(&self) -> (r: usize)
        ensures
            r == self@.ip,
    {
        self.index
    }

    /// Moves the instruction pointer to the next statement.
    pub fn next_line(&mut self)
        requires
            old(self).wf(),
            old(self)@.ip < old(self)@.code.len(),
        ensures
            final(self).wf(),
            final(self)@ == (Machine { ip: old(self)@.ip + 1, ..old(self)@ }),
    {
        let n = self.code.len();
        assert(self.index < n);
        self.index = self.index + 1;
    }

    /// Puts `data` on top of the stack.
    pub fn push(&mut self, data: String)
        requires
            old(self).wf(),
        ensures
            final(self).wf(),
            final(self)@ == (Machine { stack: old(self)@.stack.push(data@), ..old(self)@ }),
    {
        self.stack.push(data);
        assert(views(self.stack@) =~= views(old(self).stack@).push(data@));
    }

    /// Takes the top of the stack, or `None` when it is empty.
    pub fn pop(&mut self) -> (r: Option<String>)
        requires
            old(self).wf(),
        ensures
            final(self).wf(),
            old(self)@.stack.len() == 0 ==> r is None && final(self)@ == old(self)@,
            old(self)@.stack.len() > 0 ==> (r matches Some(v) && v@ == old(self)@.stack.last()
                && final(self)@ == (Machine {
                stack: old(self)@.stack.drop_last(),
                ..old(self)@
            })),
    {
        let r = self.stack.pop();
        proof {
            if old(self).stack@.len() > 0 {
                assert(views(self.stack@) =~= views(old(self).stack@).drop_last());
            }
        }
        r
    }

    fn find_var(&self, key: &String) -> (r: Option<usize>)
        requires
            self.wf(),
        ensures
            r matches Some(i) ==> i < self.vars@.len() && self.vars@[i as int].0@ == key@,
            r is None ==> forall|i: int| 0 <= i < self.vars@.len() ==> self.vars@[i].0@ != key@,
    {
        let mut i: usize = 0;
        while i < self.vars.len()
            invariant
                i <= self.vars@.len(),
                forall|j: int| 0 <= j < i ==> self.vars@[j].0@ != key@,
            decreases self.vars@.len() - i,
        {
            if self.vars[i].0 == *key {
                return Some(i);
            }
            i += 1;
        }
        None
    }

    /// The value of the variable `key`, if there is one.
    pub fn get_var(&self, key: &String) -> (r: Option<&String>)
        requires
            self.wf(),
        ensures
            r is Some <==> self@.vars.contains_key(key@),
            r matches Some(v) ==> v@ == self@.vars[key@],
    {
        match self.find_var(key) {
            Some(i) => {
                proof {
                    lemma_pairs_map_has(self.vars@, i as int);
                }
                Some(&self.vars[i].1)
            },
            None => {
                proof {
                    lemma_pairs_map_lacks(self.vars@, key@);
                }
                None
            },
        }
    }

    /// Binds the variable `key` to `value`, creating it if it is new.
    pub fn set_var(&mut self, key: String, value: String)
        requires
            old(self).wf(),
        ensures
            final(self).wf(),
            final(self)@ == (Machine {
                vars: old(self)@.vars.insert(key@, value@),
                ..old(self)@
            }),
    {
        match self.find_var(&key) {
            Some(i) => {
                proof {
                    lemma_pairs_map_update(self.vars@, i as int, (key, value));
                }
                self.vars.set(i, (key, value));
            },
            None => {
                let ghost before = self.vars@;
                self.vars.push((key, value));
                assert(self.vars@.drop_last() =~= before);
            },
        }
    }

    /// Binds the variable `lhs_key` to the value of the variable `rhs_key`.
    pub fn set_var_to_var(&mut self, lhs_key: String, rhs_key: String)
        requires
            old(self).wf(),
            old(self)@.vars.contains_key(rhs_key@),
        ensures
            final(self).wf(),
            final(self)@ == (Machine {
                vars: old(self)@.vars.insert(lhs_key@, old(self)@.vars[rhs_key@]),
                ..old(self)@
            }),
    {
        let value = match self.get_var(&rhs_key) {
            Some(v) => v.clone(),
            None => String::new(),
        };
        self.set_var(lhs_key, value);
    }

    /// Whether there is a variable `key`.
    pub fn contains_var(&self, key: &String) -> (r: bool)
        requires
            self.wf(),
        ensures
            r == self@.vars.contains_key(key@),
    {
        self.get_var(key).is_some()
    }

    /// The number of statements.
    pub fn code_size(&self) -> (r: usize)
        ensures
            r == self@.code.len(),
    {
        self.code.len()
    }
}

} // verus!
