//! The machine core: construction-time validation, the step transition, the
//! halting predicate, and read-only accessors.

use vstd::prelude::*;
use crate::errors::{ConfigurationError, NoRuleError, TuringMachineError};
use crate::rules::{lookup_rule, Direction, RuleEntry, RuleTable, BLANK};

verus! {

/// The mathematical model of a machine: its rule table's entries, tape
/// contents, head position, current state, and cycle count.
pub ghost struct MachineView {
    pub rules: Seq<RuleEntry>,
    pub memory: Seq<char>,
    pub head: int,
    pub state: int,
    pub cycle: int,
}

/// Where a head at `head` on a circular tape of length `len` lands after
/// moving in `direction`: past either end it wraps to the other.
pub open spec fn move_head(direction: Direction, head: int, len: int) -> int {
    match direction {
        Direction::Left => if head == 0 {
            len - 1
        } else {
            head - 1
        },
        Direction::Stay => head,
        Direction::Right => if head == len - 1 {
            0
        } else {
            head + 1
        },
    }
}

/// A symbol is admissible when it is in the alphabet or is the reserved
/// blank.
pub open spec fn symbol_known(alphabet: Seq<char>, c: char) -> bool {
    c == BLANK || alphabet.contains(c)
}

/// A symbol is unknown when the rule table or the tape references it but the
/// alphabet (extended with the blank) does not contain it.
pub open spec fn is_unknown_symbol(
    c: char,
    memory: Seq<char>,
    alphabet: Seq<char>,
    entries: Seq<RuleEntry>,
) -> bool {
    &&& !symbol_known(alphabet, c)
    &&& {
        ||| memory.contains(c)
        ||| exists|i: int|
            0 <= i < entries.len() && ((#[trigger] entries[i]).symbol == c || entries[i].rule.value
                == c)
    }
}

/// The transition relation on machine models.  A halted machine (state `0`)
/// has no successor: no rule lookup ever happens for state `0`.  Otherwise,
/// if a rule matches the symbol under the head and the current state, the
/// successor writes the rule's symbol, moves the head with wrap-around, takes
/// the rule's state, and counts one more cycle; with no matching rule there
/// is no successor.
pub open spec fn step_result(m: MachineView) -> Option<MachineView> {
    if m.state == 0 {
        None
    } else {
        match lookup_rule(m.rules, m.memory[m.head], m.state) {
            Some(rule) => Some(
                MachineView {
                    rules: m.rules,
                    memory: m.memory.update(m.head, rule.value),
                    head: move_head(rule.direction, m.head, m.memory.len() as int),
                    state: rule.state as int,
                    cycle: m.cycle + 1,
                },
            ),
            None => None,
        }
    }
}

/// A single-tape Turing machine over a circular tape.
#[derive(Clone, Debug)]
pub struct TuringMachine {
    rules: RuleTable,
    memory: Vec<char>,
    head: usize,
    state: usize,
    cycle: u64,
}

impl View for TuringMachine {
    type V = MachineView;

    closed spec fn view(&self) -> MachineView {
        MachineView {
            rules: self.rules@,
            memory: self.memory@,
            head: self.head as int,
            state: self.state as int,
            cycle: self.cycle as int,
        }
    }
}

impl TuringMachine {
    /// The machine invariant: a non-empty tape and an in-range head.
    pub open spec fn wf(self) -> bool {
        &&& self@.memory.len() >= 1
        &&& 0 <= self@.head < self@.memory.len()
    }

    /// True exactly when the machine has reached the reserved halting state
    /// `0`.
    pub fn is_finished(&self) -> (r: bool)
        ensures
            r == (self@.state == 0),
    {
        self.state == 0
    }

    /// How many steps have executed since construction.
    pub fn cycle(&self) -> (r: u64)
        ensures
            r == self@.cycle,
    {
        self.cycle
    }

    /// The current state.
    pub fn state(&self) -> (r: usize)
        ensures
            r == self@.state,
    {
        self.state
    }

    /// The current head position.
    pub fn head(&self) -> (r: usize)
        ensures
            r == self@.head,
    {
        self.head
    }

    /// The tape contents.
    pub fn memory(&self) -> (r: &Vec<char>)
        ensures
            r@ == self@.memory,
    {
        &self.memory
    }

    /// Builds a machine from a tape, a user alphabet, and a rule table,
    /// validating everything atomically.  Construction fails when the tape
    /// is empty, when the alphabet declares the reserved blank, or when the
    /// rule table or the tape references symbols outside the alphabet
    /// extended with the blank; in the last case every unknown symbol is
    /// reported, each once.  On success the machine starts with the head at
    /// cell `0`, in state `1`, with cycle count `0`.
    pub fn new(memory: Vec<char>, alphabet: Vec<char>, rules: RuleTable) -> (r: Result<
        TuringMachine,
        ConfigurationError,
    >)
        ensures
            r is Ok <==> (memory@.len() > 0 && !alphabet@.contains(BLANK) && (forall|c: char|
                !is_unknown_symbol(c, memory@, alphabet@, rules@))),
            match r {
                Ok(m) => {
                    &&& memory@.len() > 0
                    &&& !alphabet@.contains(BLANK)
                    &&& forall|c: char| !is_unknown_symbol(c, memory@, alphabet@, rules@)
                    &&& m@.rules == rules@
                    &&& m@.memory == memory@
                    &&& m@.head == 0
                    &&& m@.state == 1
                    &&& m@.cycle == 0
                    &&& m.wf()
                },
                Err(e) => match e {
                    ConfigurationError::EmptyMemory => memory@.len() == 0,
                    ConfigurationError::BlankInAlphabet => memory@.len() > 0 && alphabet@.contains(
                        BLANK,
                    ),
                    ConfigurationError::UnknownSymbols(v) => {
                        &&& memory@.len() > 0
                        &&& !alphabet@.contains(BLANK)
                        &&& v@.len() > 0
                        &&& v@.no_duplicates()
                        &&& forall|c: char|
                            v@.contains(c) <==> is_unknown_symbol(c, memory@, alphabet@, rules@)
                    },
                },
            },
    {
        if memory.len() == 0 {
            return Err(ConfigurationError::EmptyMemory);
        }
        if contains_char(&alphabet, BLANK) {
            return Err(ConfigurationError::BlankInAlphabet);
        }
        let mut unknown: Vec<char> = Vec::new();
        let n = rules.len();
        let mut i: usize = 0;
        while i < n
            invariant
                0 <= i <= n,
                n == rules@.len(),
                unknown@.no_duplicates(),
                forall|c: char|
                    unknown@.contains(c) ==> is_unknown_symbol(c, memory@, alphabet@, rules@),
                forall|k: int|
                    0 <= k < i ==> (!symbol_known(alphabet@, (#[trigger] rules@[k]).symbol)
                        ==> unknown@.contains(rules@[k].symbol)) && (!symbol_known(
                        alphabet@,
                        rules@[k].rule.value,
                    ) ==> unknown@.contains(rules@[k].rule.value)),
            decreases n - i,
        {
            let e = rules.entry(i);
            proof {
                assert(rules@[i as int] == e);
            }
            let ghost u0 = unknown@;
            note_symbol(&mut unknown, &alphabet, e.symbol);
            proof {
                assert forall|c: char| unknown@.contains(c) implies is_unknown_symbol(
                    c,
                    memory@,
                    alphabet@,
                    rules@,
                ) by {
                    if !u0.contains(c) {
                        assert(c == e.symbol && !symbol_known(alphabet@, c));
                        assert((rules@[i as int]).symbol == c);
                    }
                }
            }
            let ghost u1 = unknown@;
            note_symbol(&mut unknown, &alphabet, e.rule.value);
            proof {
                assert forall|c: char| unknown@.contains(c) implies is_unknown_symbol(
                    c,
                    memory@,
                    alphabet@,
                    rules@,
                ) by {
                    if !u1.contains(c) {
                        assert(c == e.rule.value && !symbol_known(alphabet@, c));
                        assert((rules@[i as int]).rule.value == c);
                    }
                }
            }
            i = i + 1;
        }
        let mut j: usize = 0;
        while j < memory.len()
            invariant
                0 <= j <= memory@.len(),
                n == rules@.len(),
                unknown@.no_duplicates(),
                forall|c: char|
                    unknown@.contains(c) ==> is_unknown_symbol(c, memory@, alphabet@, rules@),
                forall|k: int|
                    0 <= k < n ==> (!symbol_known(alphabet@, (#[trigger] rules@[k]).symbol)
                        ==> unknown@.contains(rules@[k].symbol)) && (!symbol_known(
                        alphabet@,
                        rules@[k].rule.value,
                    ) ==> unknown@.contains(rules@[k].rule.value)),
                forall|k: int|
                    0 <= k < j ==> (!symbol_known(alphabet@, #[trigger] memory@[k])
                        ==> unknown@.contains(memory@[k])),
            decreases memory@.len() - j,
        {
            let c = memory[j];
            let ghost u0 = unknown@;
            note_symbol(&mut unknown, &alphabet, c);
            proof {
                assert forall|c2: char| unknown@.contains(c2) implies is_unknown_symbol(
                    c2,
                    memory@,
                    alphabet@,
                    rules@,
                ) by {
                    if !u0.contains(c2) {
                        assert(c2 == c && !symbol_known(alphabet@, c2));
                        assert(memory@[j as int] == c2);
                        assert(memory@.contains(c2));
                    }
                }
            }
            j = j + 1;
        }
        proof {
            assert forall|c: char|
                unknown@.contains(c) <==> is_unknown_symbol(c, memory@, alphabet@, rules@) by {
                if is_unknown_symbol(c, memory@, alphabet@, rules@) {
                    if memory@.contains(c) {
                        let k = choose|k: int| 0 <= k < memory@.len() && memory@[k] == c;
                        assert(!symbol_known(alphabet@, memory@[k]));
                    } else {
                        let k = choose|k: int|
                            0 <= k < rules@.len() && ((#[trigger] rules@[k]).symbol == c
                                || rules@[k].rule.value == c);
                        assert(!symbol_known(alphabet@, rules@[k].symbol) || !symbol_known(
                            alphabet@,
                            rules@[k].rule.value,
                        ));
                    }
                }
            }
        }
        if unknown.len() > 0 {
            proof {
                assert(unknown@.contains(unknown@[0]));
            }
            return Err(ConfigurationError::UnknownSymbols(unknown));
        }
        proof {
            assert forall|c: char| !is_unknown_symbol(c, memory@, alphabet@, rules@) by {
                assert(!unknown@.contains(c));
            }
        }
        Ok(TuringMachine { rules, memory, head: 0, state: 1, cycle: 0 })
    }

    /// Executes one transition.  Reads the symbol under the head, looks up
    /// the rule for it and the current state, and either applies it — write,
    /// move with wrap-around, change state, count the cycle — or, when no
    /// rule is defined for the pair, fails without touching the machine.
    /// Callers must check `is_finished` first: a halted machine never steps.
    pub fn execute_step(&mut self) -> (r: Result<(), TuringMachineError>)
        requires
            old(self).wf(),
            old(self)@.state != 0,
            old(self)@.cycle < u64::MAX,
        ensures
            final(self).wf(),
            match r {
                Ok(()) => step_result(old(self)@) == Some(final(self)@),
                Err(e) => {
                    &&& step_result(old(self)@) is None
                    &&& final(self)@ == old(self)@
                    &&& e matches TuringMachineError::NoRule(nre) && nre.value == old(
                        self,
                    )@.memory[old(self)@.head] && nre.state == old(self)@.state
                },
            },
    {
        let value = self.memory[self.head];
        let looked_up = self.rules.lookup(value, self.state);
        match looked_up {
            None => Err(NoRuleError::wrapped(value, self.state)),
            Some(rule) => {
                self.memory.set(self.head, rule.value);
                match rule.direction {
                    Direction::Left => self.move_left(),
                    Direction::Stay => (),
                    Direction::Right => self.move_right(),
                }
                self.state = rule.state;
                self.cycle = self.cycle + 1;
                Ok(())
            },
        }
    }

    /// Moves the head one cell to the left, wrapping from cell `0` to the
    /// last cell.
    fn move_left(&mut self)
        requires
            old(self).wf(),
        ensures
            final(self).wf(),
            final(self)@ == (MachineView {
                head: move_head(Direction::Left, old(self)@.head, old(self)@.memory.len() as int),
                ..old(self)@
            }),
    {
        if self.head == 0 {
            self.head = self.memory.len() - 1;
        } else {
            self.head = self.head - 1;
        }
    }

    /// Moves the head one cell to the right, wrapping from the last cell to
    /// cell `0`.
    fn move_right(&mut self)
        requires
            old(self).wf(),
        ensures
            final(self).wf(),
            final(self)@ == (MachineView {
                head: move_head(Direction::Right, old(self)@.head, old(self)@.memory.len() as int),
                ..old(self)@
            }),
    {
        if self.head == self.memory.len() - 1 {
            self.head = 0;
        } else {
            self.head = self.head + 1;
        }
    }

    /// Renders the tape with the cell under the head bracketed, e.g.
    /// `ab{c}de` for tape `abcde` with the head on `c`.
    pub fn memory_to_string(&self) -> (r: String)
        requires
            self.wf(),
        ensures
            r@ == self@.memory.subrange(0, self@.head).push('{').push(self@.memory[self@.head]).push(
                '}',
            ) + self@.memory.subrange(self@.head + 1, self@.memory.len() as int),
    {
        let mut s = String::new();
        let mut i: usize = 0;
        while i < self.head
            invariant
                self.wf(),
                0 <= i <= self@.head,
                s@ == self@.memory.subrange(0, i as int),
            decreases self@.head - i,
        {
            push_char(&mut s, self.memory[i]);
            proof {
                assert(s@ =~= self@.memory.subrange(0, i + 1));
            }
            i = i + 1;
        }
        push_char(&mut s, '{');
        push_char(&mut s, self.memory[self.head]);
        push_char(&mut s, '}');
        let ghost mid = s@;
        let len = self.memory.len();
        let mut j: usize = self.head + 1;
        while j < len
            invariant
                self.wf(),
                len == self@.memory.len(),
                self@.head + 1 <= j <= self@.memory.len(),
                mid == self@.memory.subrange(0, self@.head).push('{').push(
                    self@.memory[self@.head],
                ).push('}'),
                s@ == mid + self@.memory.subrange(self@.head + 1, j as int),
            decreases self@.memory.len() - j,
        {
            push_char(&mut s, self.memory[j]);
            proof {
                assert(s@ =~= mid + self@.memory.subrange(self@.head + 1, j + 1));
            }
            j = j + 1;
        }
        proof {
            assert(s@ =~= mid + self@.memory.subrange(self@.head + 1, self@.memory.len() as int));
        }
        s
    }
}

/// Relies on `String::push`: appends the given character to the end of the
/// string.
#[verifier::external_body]
fn push_char(s: &mut String, c: char)
    ensures
        final(s)@ == old(s)@.push(c),
{
    s.push(c)
}

/// For a tape of length `len`, moving `Left` from head `0` wraps to the last
/// cell and moving `Right` from the last cell wraps to cell `0`; on a tape
/// of length `1` every direction leaves the head at `0`.
pub proof fn lemma_wrap_around(len: int)
    requires
        len >= 1,
    ensures
        move_head(Direction::Left, 0, len) == len - 1,
        move_head(Direction::Right, len - 1, len) == 0,
        len == 1 ==> forall|d: Direction| move_head(d, 0, len) == 0,
{
}

/// Stepping is deterministic: two machines with the same tape, rule table,
/// head, and state either both lack a successor or step to the same tape,
/// head, and state, each counting exactly one more cycle.
pub proof fn lemma_step_deterministic(a: MachineView, b: MachineView)
    requires
        a.memory == b.memory,
        a.rules == b.rules,
        a.head == b.head,
        a.state == b.state,
    ensures
        step_result(a) is Some <==> step_result(b) is Some,
        step_result(a) is Some ==> {
            let sa = step_result(a).unwrap();
            let sb = step_result(b).unwrap();
            &&& sa.memory == sb.memory
            &&& sa.rules == sb.rules
            &&& sa.head == sb.head
            &&& sa.state == sb.state
            &&& sa.cycle == a.cycle + 1
            &&& sb.cycle == b.cycle + 1
        },
{
}

/// Halting is terminal: a machine in the reserved halting state `0` has no
/// successor, so its state can never change again.
pub proof fn lemma_halted_never_steps(m: MachineView)
    requires
        m.state == 0,
    ensures
        step_result(m) is None,
{
}

/// Stepping preserves the alphabet invariant: when every tape symbol and
/// every symbol written by a rule is admissible, every tape symbol of the
/// successor is admissible too.
pub proof fn lemma_step_preserves_known_symbols(m: MachineView, alphabet: Seq<char>)
    requires
        0 <= m.head < m.memory.len(),
        forall|i: int| 0 <= i < m.memory.len() ==> symbol_known(alphabet, #[trigger] m.memory[i]),
        forall|i: int|
            0 <= i < m.rules.len() ==> symbol_known(alphabet, (#[trigger] m.rules[i]).rule.value),
        step_result(m) is Some,
    ensures
        forall|i: int|
            0 <= i < step_result(m).unwrap().memory.len() ==> symbol_known(
                alphabet,
                #[trigger] step_result(m).unwrap().memory[i],
            ),
{
    let rule = lookup_rule(m.rules, m.memory[m.head], m.state).unwrap();
    crate::rules::lemma_lookup_some_exists(m.rules, m.memory[m.head], m.state);
    let k = choose|k: int|
        0 <= k < m.rules.len() && (#[trigger] m.rules[k]).symbol == m.memory[m.head]
            && m.rules[k].state == m.state && m.rules[k].rule == rule;
    assert(symbol_known(alphabet, rule.value));
    assert forall|i: int| 0 <= i < step_result(m).unwrap().memory.len() implies symbol_known(
        alphabet,
        #[trigger] step_result(m).unwrap().memory[i],
    ) by {
        if i != m.head {
            assert(step_result(m).unwrap().memory[i] == m.memory[i]);
        }
    }
}

/// Whether `v` holds the character `c`.
fn contains_char(v: &Vec<char>, c: char) -> (r: bool)
    ensures
        r == v@.contains(c),
{
    let n = v.len();
    let mut i: usize = 0;
    while i < n
        invariant
            0 <= i <= n,
            n == v@.len(),
            forall|k: int| 0 <= k < i ==> v@[k] != c,
        decreases n - i,
    {
        if v[i] == c {
            return true;
        }
        i = i + 1;
    }
    false
}

/// Whether `c` is admissible: in the alphabet or the reserved blank.
fn symbol_ok(alphabet: &Vec<char>, c: char) -> (r: bool)
    ensures
        r == symbol_known(alphabet@, c),
{
    c == BLANK || contains_char(alphabet, c)
}

/// Adds `c` to the collected unknown symbols when the alphabet does not
/// admit it and it was not collected yet.
fn note_symbol(unknown: &mut Vec<char>, alphabet: &Vec<char>, c: char)
    requires
        old(unknown)@.no_duplicates(),
    ensures
        final(unknown)@.no_duplicates(),
        !symbol_known(alphabet@, c) ==> final(unknown)@.contains(c),
        forall|c2: char|
            final(unknown)@.contains(c2) <==> (old(unknown)@.contains(c2) || (!symbol_known(
                alphabet@,
                c,
            ) && c2 == c)),
{
    if !symbol_ok(alphabet, c) && !contains_char(unknown, c) {
        let ghost u0 = unknown@;
        unknown.push(c);
        proof {
            assert forall|c2: char| #[trigger] unknown@.contains(c2) implies (u0.contains(c2) || c2
                == c) by {
                let k = choose|k: int| 0 <= k < unknown@.len() && unknown@[k] == c2;
                if k < u0.len() {
                    assert(u0[k] == c2);
                }
            }
            assert forall|c2: char| u0.contains(c2) || c2 == c implies #[trigger] unknown@.contains(
                c2,
            ) by {
                if c2 == c {
                    assert(unknown@[u0.len() as int] == c);
                } else {
                    let k = choose|k: int| 0 <= k < u0.len() && u0[k] == c2;
                    assert(unknown@[k] == c2);
                }
            }
            assert forall|p: int, q: int|
                0 <= p < unknown@.len() && 0 <= q < unknown@.len() && p != q implies unknown@[p]
                != unknown@[q] by {
                if p < u0.len() && q < u0.len() {
                    assert(u0[p] == unknown@[p] && u0[q] == unknown@[q]);
                } else if p < u0.len() {
                    assert(u0[p] == unknown@[p] && unknown@[q] == c);
                    assert(u0.contains(u0[p]));
                } else if q < u0.len() {
                    assert(u0[q] == unknown@[q] && unknown@[p] == c);
                    assert(u0.contains(u0[q]));
                }
            }
        }
    }
}

} // verus!
