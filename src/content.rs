//! Drawing instructions and their encoding as content-stream text.

use vstd::prelude::*;
use crate::decimal::{decimal, padded, push_decimal, push_padded};
use crate::fonts::FontKey;
use crate::text::push_str;

verus! {

/// One drawing instruction. Lengths are in thousandths of a point.
#[derive(Clone, Copy, Debug, PartialEq, Eq, Structural)]
pub enum Op {
    /// `q`: save the graphics state.
    SaveState,
    /// `Q`: restore it.
    RestoreState,
    /// `cm`: scale by `a` horizontally and `d` vertically, then move by `(e, f)`.
    Transform { a: i64, d: i64, e: i64, f: i64 },
    /// `Do`: draw the image registered as `Im<index>`.
    DrawImage { index: usize },
    /// `BT`: begin a text object.
    BeginText,
    /// `Tf`: select a font resource and size.
    SetFont { key: FontKey, size: i64 },
    /// `Td`: move the text origin.
    MoveText { x: i64, y: i64 },
    /// `Tj`: show the record's identifier.
    ShowText,
    /// `ET`: end the text object.
    EndText,
}

/// A fixed-point number with three decimals, e.g. "-12.050".
pub open spec fn fixed3(v: int) -> Seq<char> {
    let m = if v < 0 { -v } else { v };
    (if v < 0 { "-"@ } else { Seq::empty() }) + decimal((m / 1000) as nat) + "."@ + padded(
        (m % 1000) as nat,
        3,
    )
}

/// The resource name of a font key: `F<n>` or `TTF<n>`.
pub open spec fn font_key_name(k: FontKey) -> Seq<char> {
    match k {
        FontKey::Standard { number, .. } => "F"@ + decimal(number as nat),
        FontKey::Embedded { number, .. } => "TTF"@ + decimal(number as nat),
    }
}

/// The resource name of the `index`-th image of a page.
pub open spec fn image_key_name(index: nat) -> Seq<char> {
    "Im"@ + decimal(index)
}

/// A literal string's characters with `(`, `)` and `\\` escaped.
pub open spec fn escaped(s: Seq<char>) -> Seq<char>
    decreases s.len(),
{
    if s.len() == 0 {
        s
    } else {
        let c = s.last();
        escaped(s.drop_last()) + (if c == '(' || c == ')' || c == '\\' {
            seq!['\\', c]
        } else {
            seq![c]
        })
    }
}

/// The text of one instruction, ending in a newline.
pub open spec fn op_text(op: Op, text: Seq<char>) -> Seq<char> {
    match op {
        Op::SaveState => "q\n"@,
        Op::RestoreState => "Q\n"@,
        Op::Transform { a, d, e, f } => fixed3(a as int) + " 0 0 "@ + fixed3(d as int) + " "@
            + fixed3(e as int) + " "@ + fixed3(f as int) + " cm\n"@,
        Op::DrawImage { index } => "/"@ + image_key_name(index as nat) + " Do\n"@,
        Op::BeginText => "BT\n"@,
        Op::SetFont { key, size } => "/"@ + font_key_name(key) + " "@ + fixed3(size as int)
            + " Tf\n"@,
        Op::MoveText { x, y } => fixed3(x as int) + " "@ + fixed3(y as int) + " Td\n"@,
        Op::ShowText => "("@ + escaped(text) + ") Tj\n"@,
        Op::EndText => "ET\n"@,
    }
}

pub open spec fn ops_text(ops: Seq<Op>, text: Seq<char>) -> Seq<char>
    decreases ops.len(),
{
    if ops.len() == 0 {
        Seq::empty()
    } else {
        ops_text(ops.drop_last(), text) + op_text(ops.last(), text)
    }
}

/// A character as one byte: its code if below 256, else `?`.
pub open spec fn latin1(c: char) -> u8 {
    if (c as u32) < 256 {
        c as u32 as u8
    } else {
        63u8
    }
}

pub open spec fn latin1_bytes(s: Seq<char>) -> Seq<u8> {
    s.map_values(|c: char| latin1(c))
}

pub fn push_fixed3(out: &mut Vec<char>, v: i64)
    ensures
        final(out)@ == old(out)@ + fixed3(v as int),
{
    let m: u64 = if v < 0 {
        (-(v as i128)) as u64
    } else {
        v as u64
    };
    let ghost start = out@;
    if v < 0 {
        push_str(out, "-");
    }
    push_decimal(out, m / 1000);
    push_str(out, ".");
    push_padded(out, m % 1000, 3);
    assert(out@ =~= start + fixed3(v as int));
}

pub fn push_font_key(out: &mut Vec<char>, k: FontKey)
    ensures
        final(out)@ == old(out)@ + font_key_name(k),
{
    let ghost start = out@;
    match k {
        FontKey::Standard { number, .. } => {
            push_str(out, "F");
            push_decimal(out, number as u64);
        },
        FontKey::Embedded { number, .. } => {
            push_str(out, "TTF");
            push_decimal(out, number as u64);
        },
    }
    assert(out@ =~= start + font_key_name(k));
}

pub fn push_escaped(out: &mut Vec<char>, s: &[char])
    ensures
        final(out)@ == old(out)@ + escaped(s@),
{
    let ghost start = out@;
    let mut i: usize = 0;
    assert(s@.subrange(0, 0) =~= Seq::<char>::empty());
    assert(out@ =~= start + escaped(Seq::<char>::empty()));
    while i < s.len()
        invariant
            i <= s.len(),
            out@ == start + escaped(s@.subrange(0, i as int)),
        decreases s.len() - i,
    {
        let c = s[i];
        assert(s@.subrange(0, i + 1).drop_last() =~= s@.subrange(0, i as int));
        if c == '(' || c == ')' || c == '\\' {
            out.push('\\');
        }
        out.push(c);
        i += 1;
        assert(out@ =~= start + escaped(s@.subrange(0, i as int)));
    }
    assert(s@.subrange(0, s.len() as int) =~= s@);
}

pub fn push_op(out: &mut Vec<char>, op: Op, text: &[char])
    ensures
        final(out)@ == old(out)@ + op_text(op, text@),
{
    let ghost start = out@;
    match op {
        Op::SaveState => push_str(out, "q\n"),
        Op::RestoreState => push_str(out, "Q\n"),
        Op::Transform { a, d, e, f } => {
            push_fixed3(out, a);
            push_str(out, " 0 0 ");
            push_fixed3(out, d);
            push_str(out, " ");
            push_fixed3(out, e);
            push_str(out, " ");
            push_fixed3(out, f);
            push_str(out, " cm\n");
        },
        Op::DrawImage { index } => {
            push_str(out, "/Im");
            push_decimal(out, index as u64);
            push_str(out, " Do\n");
            assert("/Im"@ =~= "/"@ + "Im"@) by {
                reveal_strlit("/Im");
                reveal_strlit("/");
                reveal_strlit("Im");
            }
        },
        Op::BeginText => push_str(out, "BT\n"),
        Op::SetFont { key, size } => {
            push_str(out, "/");
            push_font_key(out, key);
            push_str(out, " ");
            push_fixed3(out, size);
            push_str(out, " Tf\n");
        },
        Op::MoveText { x, y } => {
            push_fixed3(out, x);
            push_str(out, " ");
            push_fixed3(out, y);
            push_str(out, " Td\n");
        },
        Op::ShowText => {
            push_str(out, "(");
            push_escaped(out, text);
            push_str(out, ") Tj\n");
        },
        Op::EndText => push_str(out, "ET\n"),
    }
    assert(out@ =~= start + op_text(op, text@));
}

/// The content-stream bytes of a sequence of instructions, `text` being the identifier shown.
pub fn encode_ops(ops: &Vec<Op>, text: &[char]) -> (r: Vec<u8>)
    ensures
        r@ == latin1_bytes(ops_text(ops@, text@)),
{
    let mut out: Vec<char> = Vec::new();
    let mut i: usize = 0;
    assert(ops@.subrange(0, 0) =~= Seq::<Op>::empty());
    while i < ops.len()
        invariant
            i <= ops.len(),
            out@ == ops_text(ops@.subrange(0, i as int), text@),
        decreases ops.len() - i,
    {
        assert(ops@.subrange(0, i + 1).drop_last() =~= ops@.subrange(0, i as int));
        push_op(&mut out, ops[i], text);
        i += 1;
    }
    assert(ops@.subrange(0, ops.len() as int) =~= ops@);
    let mut bytes: Vec<u8> = Vec::new();
    let mut k: usize = 0;
    while k < out.len()
        invariant
            k <= out.len(),
            bytes@ == latin1_bytes(out@.subrange(0, k as int)),
        decreases out.len() - k,
    {
        let c = out[k];
        let b: u8 = if (c as u32) < 256 {
            c as u32 as u8
        } else {
            63u8
        };
        bytes.push(b);
        k += 1;
        assert(bytes@ =~= latin1_bytes(out@.subrange(0, k as int)));
    }
    assert(out@.subrange(0, out.len() as int) =~= out@);
    bytes
}

} // verus!
