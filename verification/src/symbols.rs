//! The symbol table: one linear pass over the statements assigning each
//! label an absolute address, tracking the current section and the byte
//! offsets of both sections.

use vstd::prelude::*;
use crate::lexer::str_eq;
use crate::parser::{Operand, OperandModel, Statement, StatementKind, StatementKindModel,
    StatementModel, ops_views, stmts_views};
use crate::processor::w_add;

verus! {

/// A label-to-address table together with the section base addresses used
/// to place labels.
pub struct SymbolTable {
    pub symbols: Vec<(String, u32)>,
    pub text_base: u32,
    pub data_base: u32,
}

/// The running state of the symbol pass: the entries gathered so far, the
/// current section, and the byte offsets of both sections.
pub struct BuildState {
    pub entries: Seq<(Seq<char>, u32)>,
    pub in_text: bool,
    pub text_off: u32,
    pub data_off: u32,
}

/// The address bound to `name` by the first matching entry, if any.
pub open spec fn spec_lookup(entries: Seq<(Seq<char>, u32)>, name: Seq<char>) -> Option<u32>
    decreases entries.len(),
{
    if entries.len() == 0 {
        None
    } else if entries[0].0 == name {
        Some(entries[0].1)
    } else {
        spec_lookup(entries.drop_first(), name)
    }
}

/// `x mod 2^32`, for sizes accumulated into 32-bit offsets.
pub open spec fn wrap32(x: int) -> u32 {
    (x % 0x1_0000_0000) as u32
}

/// The byte size a directive occupies, by the table of the symbol pass;
/// `current_pc` is the address the directive starts at, used by `.align`.
pub open spec fn spec_directive_size(
    name: Seq<char>,
    ops: Seq<OperandModel>,
    current_pc: u32,
) -> Result<u32, Seq<char>> {
    if name == ".align"@ {
        if ops.len() >= 1 && ops[0] is Immediate && 0 <= ops[0]->Immediate_0 <= 31 {
            let a = 1u32 << (ops[0]->Immediate_0 as u32);
            let rm = current_pc % a;
            if rm == 0 {
                Ok(0u32)
            } else {
                Ok((a - rm) as u32)
            }
        } else {
            Err("Directive .align requires a power of 2 parameter"@)
        }
    } else if name == ".word"@ {
        Ok(wrap32(4 * ops.len() as int))
    } else if name == ".half"@ {
        Ok(wrap32(2 * ops.len() as int))
    } else if name == ".byte"@ {
        Ok(wrap32(ops.len() as int))
    } else if name == ".ascii"@ || name == ".asciz"@ || name == ".string"@ {
        spec_string_total(ops, 0, name != ".ascii"@, 0)
    } else if name == ".space"@ {
        if ops.len() >= 1 && ops[0] is Immediate {
            Ok(ops[0]->Immediate_0 as u32)
        } else {
            Err("Directive .space requires an immediate value"@)
        }
    } else {
        Ok(0u32)
    }
}

/// The accumulated byte size of the string-literal operands from index `i`
/// on, counting one more byte per string when `nul` holds; a non-string
/// operand is an error.
pub open spec fn spec_string_total(
    ops: Seq<OperandModel>,
    i: int,
    nul: bool,
    acc: u32,
) -> Result<u32, Seq<char>>
    decreases ops.len() - i,
{
    if i < 0 || i >= ops.len() {
        Ok(acc)
    } else {
        match ops[i] {
            OperandModel::StringLiteral(s) => spec_string_total(
                ops,
                i + 1,
                nul,
                w_add(
                    acc,
                    w_add(
                        wrap32(s.len() as int),
                        if nul {
                            1
                        } else {
                            0
                        },
                    ),
                ),
            ),
            _ => Err("Directive requires a string literal"@),
        }
    }
}

/// One step of the symbol pass on statement `st`.
pub open spec fn spec_build_step(
    st: StatementModel,
    state: BuildState,
    text_base: u32,
    data_base: u32,
) -> Result<BuildState, Seq<char>> {
    match st.kind {
        StatementKindModel::Directive(name, ops) => {
            if name == ".text"@ {
                Ok(BuildState { in_text: true, ..state })
            } else if name == ".data"@ {
                Ok(BuildState { in_text: false, ..state })
            } else {
                let pc = if state.in_text {
                    w_add(text_base, state.text_off)
                } else {
                    w_add(data_base, state.data_off)
                };
                match spec_directive_size(name, ops, pc) {
                    Err(m) => Err(m),
                    Ok(sz) => if state.in_text {
                        Ok(BuildState { text_off: w_add(state.text_off, sz), ..state })
                    } else {
                        Ok(BuildState { data_off: w_add(state.data_off, sz), ..state })
                    },
                }
            }
        },
        StatementKindModel::Label(name) => {
            let address = if state.in_text {
                w_add(text_base, state.text_off)
            } else {
                w_add(data_base, state.data_off)
            };
            if spec_lookup(state.entries, name) is Some {
                Err("Error: Duplicated label '"@ + name + "'"@)
            } else {
                Ok(BuildState { entries: state.entries.push((name, address)), ..state })
            }
        },
        StatementKindModel::Instruction(name, ops) => {
            if state.in_text {
                Ok(BuildState { text_off: w_add(state.text_off, 4), ..state })
            } else {
                Err("Error: Instruction found on .data section"@)
            }
        },
    }
}

/// The symbol pass over the statements from index `i` on: the final state,
/// or the failing message together with the state reached at the failure.
pub open spec fn spec_build(
    stmts: Seq<StatementModel>,
    i: int,
    state: BuildState,
    text_base: u32,
    data_base: u32,
) -> Result<BuildState, (Seq<char>, BuildState)>
    decreases stmts.len() - i,
{
    if i < 0 || i >= stmts.len() {
        Ok(state)
    } else {
        match spec_build_step(stmts[i], state, text_base, data_base) {
            Err(m) => Err((m, state)),
            Ok(s2) => spec_build(stmts, i + 1, s2, text_base, data_base),
        }
    }
}

/// The entries of the table, as character sequences paired with addresses.
pub open spec fn entries_view(symbols: Seq<(String, u32)>) -> Seq<(Seq<char>, u32)> {
    symbols.map_values(|p: (String, u32)| (p.0@, p.1))
}

/// Every label name appears in at most one entry: no name can resolve to
/// two distinct addresses.
pub open spec fn distinct_names(entries: Seq<(Seq<char>, u32)>) -> bool {
    forall|j: int, k: int|
        0 <= j < k < entries.len() ==> (#[trigger] entries[j]).0 != (#[trigger] entries[k]).0
}

/// A name that the lookup misses stands in no entry.
pub proof fn lemma_lookup_none(entries: Seq<(Seq<char>, u32)>, name: Seq<char>)
    ensures
        spec_lookup(entries, name) is None <==> (forall|k: int|
            0 <= k < entries.len() ==> (#[trigger] entries[k]).0 != name),
    decreases entries.len(),
{
    if entries.len() > 0 {
        let rest = entries.drop_first();
        lemma_lookup_none(rest, name);
        assert(forall|k: int| 0 <= k < rest.len() ==> #[trigger] rest[k] == entries[k + 1]);
        if spec_lookup(entries, name) is None {
            assert forall|k: int| 0 <= k < entries.len() implies (#[trigger] entries[k]).0
                != name by {
                if k > 0 {
                    assert(entries[k] == rest[k - 1]);
                }
            }
        }
        if forall|k: int| 0 <= k < entries.len() ==> (#[trigger] entries[k]).0 != name {
            assert forall|k: int| 0 <= k < rest.len() implies (#[trigger] rest[k]).0 != name by {
                assert(rest[k] == entries[k + 1]);
            }
        }
    }
}

/// The symbol pass preserves distinctness of label names: starting from a
/// table with no repeated name, the table it builds (including the table
/// standing at a failure) has no repeated name either, so no label ever
/// resolves to two distinct addresses.
pub proof fn lemma_build_unique_labels(
    stmts: Seq<StatementModel>,
    i: int,
    state: BuildState,
    text_base: u32,
    data_base: u32,
)
    requires
        distinct_names(state.entries),
    ensures
        (match spec_build(stmts, i, state, text_base, data_base) {
            Ok(st) => distinct_names(st.entries),
            Err(e) => distinct_names(e.1.entries),
        }),
    decreases stmts.len() - i,
{
    if 0 <= i < stmts.len() {
        match spec_build_step(stmts[i], state, text_base, data_base) {
            Err(m) => {},
            Ok(s2) => {
                match stmts[i].kind {
                    StatementKindModel::Label(name) => {
                        lemma_lookup_none(state.entries, name);
                        assert(distinct_names(s2.entries)) by {
                            assert(forall|k: int|
                                0 <= k < state.entries.len() ==> s2.entries[k]
                                    == #[trigger] state.entries[k]);
                        }
                    },
                    _ => {
                        assert(s2.entries == state.entries);
                    },
                }
                lemma_build_unique_labels(stmts, i + 1, s2, text_base, data_base);
            },
        }
    }
}

/// A power of two is never zero.
proof fn lemma_shift_pos(p: u32)
    by (bit_vector)
    requires
        p < 32,
    ensures
        (1u32 << p) >= 1,
{
}

impl SymbolTable {
    /// The model of the stored entries.
    pub open spec fn entries(&self) -> Seq<(Seq<char>, u32)> {
        entries_view(self.symbols@)
    }

    /// An empty table for the given section bases.
    pub fn new(text_base: u32, data_base: u32) -> (r: SymbolTable)
        ensures
            r.entries() == Seq::<(Seq<char>, u32)>::empty(),
            r.text_base == text_base,
            r.data_base == data_base,
    {
        let r = SymbolTable { symbols: Vec::new(), text_base, data_base };
        proof {
            assert(r.entries() =~= Seq::<(Seq<char>, u32)>::empty());
        }
        r
    }

    /// The address bound to `label`, if the table holds it.
    pub fn get_address(&self, label: &str) -> (r: Option<u32>)
        ensures
            r == spec_lookup(self.entries(), label@),
    {
        let ghost entries = self.entries();
        proof {
            assert(entries.subrange(0, entries.len() as int) =~= entries);
        }
        let mut i: usize = 0;
        while i < self.symbols.len()
            invariant
                i <= self.symbols@.len(),
                entries == entries_view(self.symbols@),
                entries.len() == self.symbols@.len(),
                spec_lookup(entries, label@) == spec_lookup(
                    entries.subrange(i as int, entries.len() as int),
                    label@,
                ),
            decreases self.symbols@.len() - i,
        {
            let ghost tail = entries.subrange(i as int, entries.len() as int);
            proof {
                assert(tail[0] == entries[i as int]);
                assert(tail.drop_first() =~= entries.subrange(i + 1, entries.len() as int));
            }
            if str_eq(self.symbols[i].0.as_str(), label) {
                return Some(self.symbols[i].1);
            }
            i = i + 1;
        }
        proof {
            assert(entries.subrange(entries.len() as int, entries.len() as int)
                =~= Seq::<(Seq<char>, u32)>::empty());
        }
        None
    }

    /// Bind `label` to `address`; a name already bound is rejected and the
    /// table is unchanged.
    pub fn add_label(&mut self, label: String, address: u32) -> (r: Result<(), String>)
        ensures
            final(self).text_base == old(self).text_base,
            final(self).data_base == old(self).data_base,
            spec_lookup(old(self).entries(), label@) is Some ==> (r matches Err(m) && m@
                == "Error: Duplicated label '"@ + label@ + "'"@ && final(self).entries() == old(
                self,
            ).entries()),
            spec_lookup(old(self).entries(), label@) is None ==> r is Ok && final(self).entries()
                == old(self).entries().push((label@, address)),
    {
        let dup = match self.get_address(label.as_str()) {
            Some(_) => true,
            None => false,
        };
        if dup {
            let mut m = String::from_str("Error: Duplicated label '");
            m.append(label.as_str());
            m.append("'");
            Err(m)
        } else {
            let ghost before = self.entries();
            let ghost lv = label@;
            self.symbols.push((label, address));
            proof {
                assert(self.entries() =~= before.push((lv, address)));
            }
            Ok(())
        }
    }

    /// The byte size the directive `name` with operands `operands` occupies
    /// when placed at `current_pc`.
    #[verifier::loop_isolation(false)]
    pub fn calculate_directive_size(
        &self,
        name: &str,
        operands: &[Operand],
        current_pc: u32,
    ) -> (r: Result<u32, String>)
        ensures
            (match spec_directive_size(name@, ops_views(operands@), current_pc) {
                Ok(sz) => r matches Ok(s) && s == sz,
                Err(m) => r matches Err(e) && e@ == m,
            }),
    {
        let ghost ops = ops_views(operands@);
        if str_eq(name, ".align") {
            proof {
                if operands@.len() >= 1 {
                    assert(ops[0] == operands@[0]@);
                }
            }
            if operands.len() >= 1 {
                match &operands[0] {
                    Operand::Immediate(pow) => {
                        let p = *pow;
                        if 0 <= p && p <= 31 {
                            proof {
                                lemma_shift_pos(p as u32);
                            }
                            let a = 1u32 << (p as u32);
                            let rm = current_pc % a;
                            if rm == 0 {
                                return Ok(0);
                            }
                            return Ok(a - rm);
                        }
                        return Err(
                            String::from_str("Directive .align requires a power of 2 parameter"),
                        );
                    },
                    _ => {
                        return Err(
                            String::from_str("Directive .align requires a power of 2 parameter"),
                        );
                    },
                }
            }
            Err(String::from_str("Directive .align requires a power of 2 parameter"))
        } else if str_eq(name, ".word") {
            proof {
                vstd::arithmetic::div_mod::lemma_mul_mod_noop_left(
                    operands@.len() as int,
                    4,
                    0x1_0000_0000,
                );
            }
            let c: u64 = (operands.len() as u64) % 0x1_0000_0000;
            Ok(((c * 4) % 0x1_0000_0000) as u32)
        } else if str_eq(name, ".half") {
            proof {
                vstd::arithmetic::div_mod::lemma_mul_mod_noop_left(
                    operands@.len() as int,
                    2,
                    0x1_0000_0000,
                );
            }
            let c: u64 = (operands.len() as u64) % 0x1_0000_0000;
            Ok(((c * 2) % 0x1_0000_0000) as u32)
        } else if str_eq(name, ".byte") {
            Ok(((operands.len() as u64) % 0x1_0000_0000) as u32)
        } else if str_eq(name, ".ascii") || str_eq(name, ".asciz") || str_eq(name, ".string") {
            let nul = !str_eq(name, ".ascii");
            let mut total: u32 = 0;
            let mut i: usize = 0;
            while i < operands.len()
                invariant
                    ops == ops_views(operands@),
                    ops.len() == operands@.len(),
                    i <= operands@.len(),
                    spec_string_total(ops, 0, nul, 0) == spec_string_total(
                        ops,
                        i as int,
                        nul,
                        total,
                    ),
                decreases operands@.len() - i,
            {
                proof {
                    assert(ops[i as int] == operands@[i as int]@);
                }
                match &operands[i] {
                    Operand::StringLiteral(st) => {
                        let l: u64 = (st.unicode_len() as u64) % 0x1_0000_0000;
                        let piece: u32 = if nul {
                            (((l + 1) % 0x1_0000_0000) as u32)
                        } else {
                            l as u32
                        };
                        proof {
                            assert(piece == w_add(
                                wrap32(st@.len() as int),
                                if nul {
                                    1u32
                                } else {
                                    0u32
                                },
                            ));
                        }
                        total = total.wrapping_add(piece);
                        i = i + 1;
                    },
                    _ => {
                        return Err(String::from_str("Directive requires a string literal"));
                    },
                }
            }
            Ok(total)
        } else if str_eq(name, ".space") {
            proof {
                if operands@.len() >= 1 {
                    assert(ops[0] == operands@[0]@);
                }
            }
            if operands.len() >= 1 {
                match &operands[0] {
                    Operand::Immediate(v) => {
                        return Ok(*v as u32);
                    },
                    _ => {
                        return Err(
                            String::from_str("Directive .space requires an immediate value"),
                        );
                    },
                }
            }
            Err(String::from_str("Directive .space requires an immediate value"))
        } else {
            Ok(0)
        }
    }

    /// Run the symbol pass over `statements`, binding every label to its
    /// absolute address; the first duplicate label, instruction in the
    /// data section, or malformed directive stops the pass.
    #[verifier::loop_isolation(false)]
    pub fn build(&mut self, statements: &[Statement]) -> (r: Result<(), String>)
        ensures
            final(self).text_base == old(self).text_base,
            final(self).data_base == old(self).data_base,
            (match spec_build(
                stmts_views(statements@),
                0,
                (BuildState {
                    entries: old(self).entries(),
                    in_text: true,
                    text_off: 0,
                    data_off: 0,
                }),
                old(self).text_base,
                old(self).data_base,
            ) {
                Ok(st) => r is Ok && final(self).entries() == st.entries,
                Err(e) => r matches Err(m) && m@ == e.0 && final(self).entries() == e.1.entries,
            }),
    {
        let ghost stmts = stmts_views(statements@);
        let ghost tb = self.text_base;
        let ghost db = self.data_base;
        let ghost init = BuildState {
            entries: self.entries(),
            in_text: true,
            text_off: 0,
            data_off: 0,
        };
        let mut text_offset: u32 = 0;
        let mut data_offset: u32 = 0;
        let mut in_text: bool = true;
        let mut i: usize = 0;
        while i < statements.len()
            invariant
                stmts.len() == statements@.len(),
                i <= statements@.len(),
                self.text_base == tb,
                self.data_base == db,
                spec_build(stmts, 0, init, tb, db) == spec_build(
                    stmts,
                    i as int,
                    (BuildState {
                        entries: self.entries(),
                        in_text,
                        text_off: text_offset,
                        data_off: data_offset,
                    }),
                    tb,
                    db,
                ),
            decreases statements@.len() - i,
        {
            let ghost cur = BuildState {
                entries: self.entries(),
                in_text,
                text_off: text_offset,
                data_off: data_offset,
            };
            proof {
                assert(stmts[i as int] == statements@[i as int]@);
            }
            match &statements[i].kind {
                StatementKind::Directive(name, ops) => {
                    if str_eq(name.as_str(), ".text") {
                        in_text = true;
                    } else if str_eq(name.as_str(), ".data") {
                        in_text = false;
                    } else {
                        let current_pc = if in_text {
                            self.text_base.wrapping_add(text_offset)
                        } else {
                            self.data_base.wrapping_add(data_offset)
                        };
                        match self.calculate_directive_size(name.as_str(), ops.as_slice(),
                            current_pc) {
                            Ok(size) => {
                                if in_text {
                                    text_offset = text_offset.wrapping_add(size);
                                } else {
                                    data_offset = data_offset.wrapping_add(size);
                                }
                            },
                            Err(m) => {
                                return Err(m);
                            },
                        }
                    }
                },
                StatementKind::Label(name) => {
                    let address = if in_text {
                        self.text_base.wrapping_add(text_offset)
                    } else {
                        self.data_base.wrapping_add(data_offset)
                    };
                    match self.add_label(name.clone(), address) {
                        Ok(_) => {},
                        Err(m) => {
                            return Err(m);
                        },
                    }
                },
                StatementKind::Instruction(name, ops) => {
                    if in_text {
                        text_offset = text_offset.wrapping_add(4);
                    } else {
                        return Err(
                            String::from_str("Error: Instruction found on .data section"),
                        );
                    }
                },
            }
            i = i + 1;
        }
        Ok(())
    }
}

} // verus!