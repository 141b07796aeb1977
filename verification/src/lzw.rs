use vstd::prelude::*;
use crate::frame_decoder::LzwEntry;

verus! {

/// A code the dictionary can resolve: a literal below the clear code, or an
/// occupied slot above the stop code.
pub open spec fn valid_code(clear_code: int, table_index: int, c: int) -> bool {
    (0 <= c < clear_code) || (clear_code + 2 <= c <= table_index)
}

/// Every occupied slot links to a strictly smaller code that is itself
/// resolvable, so every chain of `first` links descends to a literal.
pub open spec fn table_entries_wf(t: Seq<LzwEntry>, clear_code: int, table_index: int) -> bool {
    forall|i: int|
        clear_code + 2 <= i <= table_index ==> valid_code(
            clear_code,
            i - 1,
            (#[trigger] t[i]).first as int,
        )
}

/// The literal byte sequence a code stands for: a literal is itself; an
/// occupied slot is the expansion of its predecessor with `last` appended.
pub open spec fn expand_code(t: Seq<LzwEntry>, clear_code: int, c: int) -> Seq<u8>
    decreases c when 0 <= c
{
    if 0 <= c < clear_code {
        seq![c as u8]
    } else if 0 <= c < t.len() && 0 <= t[c].first < c {
        expand_code(t, clear_code, t[c].first as int).push(t[c].last)
    } else {
        Seq::empty()
    }
}

/// The first literal of the sequence a code stands for.
pub open spec fn first_literal(t: Seq<LzwEntry>, clear_code: int, c: int) -> u8
    decreases c when 0 <= c
{
    if 0 <= c < clear_code {
        c as u8
    } else if 0 <= c < t.len() && 0 <= t[c].first < c {
        first_literal(t, clear_code, t[c].first as int)
    } else {
        0
    }
}

/// For a resolvable code of a well-formed table, the expansion is non-empty
/// and starts with its first literal.
pub proof fn lemma_expand_head(t: Seq<LzwEntry>, clear_code: int, table_index: int, c: int)
    requires
        t.len() == 4096,
        4 <= clear_code,
        table_index <= 4095,
        table_entries_wf(t, clear_code, table_index),
        valid_code(clear_code, table_index, c),
    ensures
        expand_code(t, clear_code, c).len() >= 1,
        expand_code(t, clear_code, c)[0] == first_literal(t, clear_code, c),
    decreases c,
{
    if 0 <= c < clear_code {
    } else {
        assert(valid_code(clear_code, c - 1, t[c].first as int));
        lemma_expand_head(t, clear_code, table_index, t[c].first as int);
    }
}

/// The dictionary machine of one frame: everything a code changes besides
/// pixels and bits.
pub struct LzwState {
    pub clear_code: int,
    pub initial_symbol_size: int,
    pub current_symbol_size: int,
    pub table_index: int,
    pub table: Seq<LzwEntry>,
    pub last_symbol: Option<u16>,
}

/// Well-formedness of the dictionary machine.
pub open spec fn lzw_wf(s: LzwState) -> bool {
    &&& 4 <= s.clear_code <= 256
    &&& 3 <= s.initial_symbol_size <= 9
    &&& s.initial_symbol_size <= s.current_symbol_size <= 12
    &&& s.clear_code + 1 <= s.table_index <= 4095
    &&& s.table.len() == 4096
    &&& table_entries_wf(s.table, s.clear_code, s.table_index)
    &&& match s.last_symbol {
        Some(c) => valid_code(s.clear_code, s.table_index, c as int),
        None => true,
    }
}

/// A code the state machine accepts as a data code: not a control code, and
/// at most one past the highest occupied slot.
pub open spec fn acceptable_data_code(s: LzwState, symbol: u16) -> bool {
    &&& symbol < 4096
    &&& symbol as int != s.clear_code
    &&& symbol as int != s.clear_code + 1
    &&& symbol as int <= s.table_index + 1
}

/// Effect of the clear code: the width and the table shrink back to their
/// post-construction values and the previous code is forgotten.  The slots
/// above the new table index keep their bytes but become unreachable.
pub open spec fn clear_step(s: LzwState) -> LzwState {
    LzwState {
        current_symbol_size: s.initial_symbol_size,
        table_index: s.clear_code + 1,
        last_symbol: None,
        ..s
    }
}

/// Effect of the first data code after start or clear: it must be a literal
/// and only becomes the remembered code; one pixel carrying it is emitted.
pub open spec fn lit_step(s: LzwState, symbol: u16) -> LzwState {
    LzwState { last_symbol: Some(symbol), ..s }
}

/// Effect of a data code once a previous code is remembered.  With room in
/// the table, a new entry is inserted at the next slot: its `first` is the
/// remembered code, its `last` the first literal of the incoming code — of
/// the remembered code when the incoming code is the not-yet-written slot
/// itself.  Immediately after an insertion that makes the next slot the
/// first one inexpressible in the current width, the width grows by one bit.
/// A full table is frozen: the code is decoded against it unchanged.
pub open spec fn data_step(s: LzwState, symbol: u16) -> LzwState {
    let prev = s.last_symbol.unwrap();
    if s.table_index < 4095 {
        let eff: int = if symbol as int <= s.table_index {
            symbol as int
        } else {
            prev as int
        };
        let entry = LzwEntry {
            first: prev,
            last: first_literal(s.table, s.clear_code, eff),
        };
        let ti2 = s.table_index + 1;
        let bump = ti2 + 1 == (1u16 << (s.current_symbol_size as u16))
            && s.current_symbol_size < 12;
        LzwState {
            table: s.table.update(ti2, entry),
            table_index: ti2,
            current_symbol_size: if bump {
                s.current_symbol_size + 1
            } else {
                s.current_symbol_size
            },
            last_symbol: Some(symbol),
            ..s
        }
    } else {
        LzwState { last_symbol: Some(symbol), ..s }
    }
}

/// The pixels a data code emits: its expansion in the table as it stands
/// after the insertion the code causes.
pub open spec fn emitted(s: LzwState, symbol: u16) -> Seq<u8> {
    expand_code(data_step(s, symbol).table, s.clear_code, symbol as int)
}

/// The data step preserves well-formedness, and the incoming code is
/// resolvable in the resulting table.
pub proof fn lemma_data_step_wf(s: LzwState, symbol: u16)
    requires
        lzw_wf(s),
        s.last_symbol is Some,
        acceptable_data_code(s, symbol),
    ensures
        lzw_wf(data_step(s, symbol)),
        valid_code(s.clear_code, data_step(s, symbol).table_index, symbol as int),
        data_step(s, symbol).table_index >= s.table_index,
{
    let s2 = data_step(s, symbol);
    if s.table_index < 4095 {
        let ti2 = s.table_index + 1;
        assert forall|i: int| s.clear_code + 2 <= i <= ti2 implies valid_code(
            s.clear_code,
            i - 1,
            (#[trigger] s2.table[i]).first as int,
        ) by {
            if i < ti2 {
                assert(s2.table[i] == s.table[i]);
            }
        }
    }
}

/// Idempotence of clear: a second clear code leaves the dictionary machine
/// exactly as the first left it.
pub proof fn lemma_clear_idempotent(s: LzwState)
    ensures
        clear_step(clear_step(s)) == clear_step(s),
{
}

/// KwKwK completeness: right after a clear, a literal `a` followed by the
/// code for the slot that is about to be written decodes to `[a, a]` on top
/// of the single pixel `[a]` of the literal — `[a, a, a]` in all — and the
/// entry inserted at `stop_code + 1` is `(first: a, last: a)`.
pub proof fn lemma_kwkwk(s: LzwState, a: u16)
    requires
        lzw_wf(s),
        a < s.clear_code,
    ensures
        ({
            let s1 = lit_step(clear_step(s), a);
            let kw = (s.clear_code + 2) as u16;
            &&& emitted(s1, kw) == seq![a as u8, a as u8]
            &&& seq![a as u8] + emitted(s1, kw) == seq![a as u8, a as u8, a as u8]
            &&& data_step(s1, kw).table[s.clear_code + 2] == LzwEntry {
                first: a,
                last: a as u8,
            }
        }),
{
    let s1 = lit_step(clear_step(s), a);
    let kw = (s.clear_code + 2) as u16;
    let s2 = data_step(s1, kw);
    let entry = LzwEntry { first: a, last: a as u8 };
    assert(first_literal(s1.table, s1.clear_code, a as int) == a as u8);
    assert(s2.table == s1.table.update(s.clear_code + 2, entry));
    assert(s2.table[s.clear_code + 2] == entry);
    assert(expand_code(s2.table, s.clear_code, a as int) == seq![a as u8]);
    assert(emitted(s1, kw) == expand_code(s2.table, s.clear_code, a as int).push(a as u8));
    assert(emitted(s1, kw) =~= seq![a as u8, a as u8]);
    assert(seq![a as u8] + emitted(s1, kw) =~= seq![a as u8, a as u8, a as u8]);
}

/// Width-bump timing: with the width fresh from a clear, a data step grows
/// the width exactly when the insertions performed since that clear number
/// `(1 << initial_symbol_size) - stop_code - 1`, so the very next code is
/// read one bit wider.
pub proof fn lemma_width_bump_timing(s: LzwState, symbol: u16)
    requires
        lzw_wf(s),
        s.last_symbol is Some,
        acceptable_data_code(s, symbol),
        s.current_symbol_size == s.initial_symbol_size,
        s.table_index < 4095,
    ensures
        ({
            let s2 = data_step(s, symbol);
            let stop_code = s.clear_code + 1;
            let insertions = s2.table_index - stop_code;
            (s2.current_symbol_size == s.current_symbol_size + 1) <==> insertions == (1u16 << (
                s.initial_symbol_size as u16)) - stop_code - 1
        }),
{
}

/// The width changes in a data step only through an insertion that fills
/// it: if the width differs after the step, an entry was inserted and the
/// slot after the new table index is the first one the old width cannot
/// express.
pub proof fn lemma_width_increase_only_at_fill(s: LzwState, symbol: u16)
    requires
        lzw_wf(s),
        s.last_symbol is Some,
        acceptable_data_code(s, symbol),
    ensures
        ({
            let s2 = data_step(s, symbol);
            s2.current_symbol_size != s.current_symbol_size ==> {
                &&& s.table_index < 4095
                &&& s2.table_index == s.table_index + 1
                &&& s2.table_index + 1 == (1u16 << (s.current_symbol_size as u16))
                &&& s2.current_symbol_size == s.current_symbol_size + 1
            }
        }),
{
}

} // verus!
