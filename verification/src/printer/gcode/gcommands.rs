//! G commands: moves, pauses, homing and setting the position.
use vstd::prelude::*;
use crate::binary32::{as_i16, to_i16, as_u32, to_u32};
use crate::printer::{Settings, Encoder};
use super::{Field, ParseGcodeError, scope};

verus! {

/// The encoder of the axis a letter names.
pub open spec fn axis_encoder(s: Settings, letter: char) -> Option<Encoder> {
    if letter == 'X' {
        Some(s.x_coder)
    } else if letter == 'Y' {
        Some(s.y_coder)
    } else if letter == 'Z' {
        Some(s.z_coder)
    } else {
        None
    }
}

/// The byte that introduces an axis in the controller's data: the upper-case
/// letter for a move, the lower-case one for setting the position.
pub open spec fn axis_tag(letter: char, set_position: bool) -> u8 {
    if letter == 'X' {
        if set_position { 'x' as u8 } else { 'X' as u8 }
    } else if letter == 'Y' {
        if set_position { 'y' as u8 } else { 'Y' as u8 }
    } else {
        if set_position { 'z' as u8 } else { 'Z' as u8 }
    }
}

/// Little-endian bytes of a 16-bit value.
pub open spec fn le_bytes16(v: int) -> Seq<u8> {
    seq![(v % 0x100) as u8, (v / 0x100) as u8]
}

/// Little-endian bytes of a 32-bit value.
pub open spec fn le_bytes32(v: int) -> Seq<u8> {
    seq![
        (v % 0x100) as u8,
        ((v / 0x100) % 0x100) as u8,
        ((v / 0x1_0000) % 0x100) as u8,
        (v / 0x100_0000) as u8,
    ]
}

/// The controller data of a move (`G0`/`G1`) or of setting the position (`G92`):
/// for each field naming an axis, its tag and the little-endian position.
/// Fields naming no axis are skipped; a field without a number is an error.
pub open spec fn move_data(fields: Seq<Field>, s: Settings, set_position: bool) -> Option<Seq<u8>>
    decreases fields.len(),
{
    if fields.len() == 0 {
        Some(seq![])
    } else {
        match move_data(fields.drop_last(), s, set_position) {
            None => None,
            Some(d) => {
                let f = fields.last();
                match f.number {
                    None => None,
                    Some(b) => match axis_encoder(s, f.letter) {
                        Some(enc) => Some(
                            d + seq![axis_tag(f.letter, set_position)] + le_bytes16(
                                enc.spec_position(as_i16(b)),
                            ),
                        ),
                        None => Some(d),
                    },
                }
            },
        }
    }
}

/// Every position computed while reading the fields fits (the fields after the
/// first one without a number are never read).
pub open spec fn move_fits(fields: Seq<Field>, s: Settings) -> bool
    decreases fields.len(),
{
    if fields.len() == 0 {
        true
    } else {
        &&& move_fits(fields.drop_last(), s)
        &&& (move_data(fields.drop_last(), s, false) is Some && fields.last().number is Some
            && axis_encoder(s, fields.last().letter) is Some) ==> axis_encoder(
            s,
            fields.last().letter,
        ).unwrap().position_fits(as_i16(fields.last().number.unwrap()))
    }
}

proof fn lemma_move_data_same_shape(fields: Seq<Field>, s: Settings)
    ensures
        (move_data(fields, s, false) is Some) == (move_data(fields, s, true) is Some),
    decreases fields.len(),
{
    if fields.len() > 0 {
        lemma_move_data_same_shape(fields.drop_last(), s);
    }
}

fn push_u16_le(data: &mut Vec<u8>, v: u16)
    ensures
        final(data)@ == old(data)@ + le_bytes16(v as int),
{
    data.push((v % 0x100) as u8);
    data.push((v / 0x100) as u8);
}

/// Reads the move fields into controller data (shared by `G0` and `G92`).
fn read_move(fields: &[Field], setting: &Settings, set_position: bool) -> (r: Result<Vec<u8>, ParseGcodeError>)
    requires
        move_fits(fields@, *setting),
    ensures
        match r {
            Ok(data) => move_data(fields@, *setting, set_position) == Some(data@),
            Err(_) => move_data(fields@, *setting, set_position) is None,
        },
{
    let mut data: Vec<u8> = Vec::new();
    let mut i: usize = 0;
    while i < fields.len()
        invariant
            i <= fields.len(),
            move_fits(fields@, *setting),
            move_data(fields@.take(i as int), *setting, set_position) == Some(data@),
        decreases fields.len() - i,
    {
        let ghost prefix = fields@.take(i as int);
        let ghost next = fields@.take(i + 1);
        assert(next.drop_last() =~= prefix);
        proof {
            lemma_move_fits_prefix(fields@, *setting, i + 1);
            lemma_move_data_same_shape(prefix, *setting);
        }
        let field = fields[i];
        match field.number {
            Some(value) => {
                if field.letter == 'X' {
                    data.push(if set_position { 'x' as u8 } else { 'X' as u8 });
                    let p = setting.x_coder.postion(to_i16(value));
                    push_u16_le(&mut data, p);
                } else if field.letter == 'Y' {
                    data.push(if set_position { 'y' as u8 } else { 'Y' as u8 });
                    let p = setting.y_coder.postion(to_i16(value));
                    push_u16_le(&mut data, p);
                } else if field.letter == 'Z' {
                    data.push(if set_position { 'z' as u8 } else { 'Z' as u8 });
                    let p = setting.z_coder.postion(to_i16(value));
                    push_u16_le(&mut data, p);
                }
            },
            None => {
                proof {
                    lemma_move_data_none_extends(fields@, *setting, set_position, i + 1);
                }
                return Err(ParseGcodeError);
            },
        }
        i = i + 1;
    }
    assert(fields@.take(i as int) =~= fields@);
    Ok(data)
}

/// `move_fits` holds of every prefix of fields it holds of.
proof fn lemma_move_fits_prefix(fields: Seq<Field>, s: Settings, n: int)
    requires
        0 <= n <= fields.len(),
        move_fits(fields, s),
    ensures
        move_fits(fields.take(n), s),
    decreases fields.len() - n,
{
    if n < fields.len() {
        assert(fields.drop_last().take(n) =~= fields.take(n));
        lemma_move_fits_prefix(fields.drop_last(), s, n);
    } else {
        assert(fields.take(n) =~= fields);
    }
}

/// Once a prefix of the fields is an error, all of them are.
proof fn lemma_move_data_none_extends(fields: Seq<Field>, s: Settings, set_position: bool, n: int)
    requires
        0 <= n <= fields.len(),
        move_data(fields.take(n), s, set_position) is None,
    ensures
        move_data(fields, s, set_position) is None,
    decreases fields.len() - n,
{
    if n < fields.len() {
        assert(fields.drop_last().take(n) =~= fields.take(n));
        lemma_move_data_none_extends(fields.drop_last(), s, set_position, n);
    } else {
        assert(fields.take(n) =~= fields);
    }
}

/// `set` is the move data `moved` with every axis tag in lower case: both are
/// runs of a tag byte (`X`, `Y` or `Z` in `moved`) and two position bytes, and
/// only the tag bytes differ.
pub open spec fn tags_lowered(moved: Seq<u8>, set: Seq<u8>) -> bool {
    &&& moved.len() == set.len()
    &&& moved.len() % 3 == 0
    &&& forall|i: int| 0 <= i < moved.len() ==> #[trigger] byte_lowered(moved, set, i)
}

/// Byte `i` of `set` is that of `moved`, in lower case where it is a tag.
pub open spec fn byte_lowered(moved: Seq<u8>, set: Seq<u8>, i: int) -> bool {
    if i % 3 == 0 {
        &&& (moved[i] == 'X' as u8 || moved[i] == 'Y' as u8 || moved[i] == 'Z' as u8)
        &&& set[i] == moved[i] + 32
    } else {
        set[i] == moved[i]
    }
}

/// Setting the position (`G92`) reads the same fields as a move (`G0`): it
/// succeeds on the same fields, and its data is the move's data with the axis
/// tags in lower case, the positions unchanged.
pub proof fn lemma_set_position_lowers_tags(fields: Seq<Field>, s: Settings)
    ensures
        (move_data(fields, s, true) is Some) == (move_data(fields, s, false) is Some),
        move_data(fields, s, false) matches Some(moved) ==> tags_lowered(
            moved,
            move_data(fields, s, true).unwrap(),
        ),
    decreases fields.len(),
{
    if fields.len() > 0 {
        let rest = fields.drop_last();
        lemma_set_position_lowers_tags(rest, s);
        if let Some(d) = move_data(rest, s, false) {
            let e = move_data(rest, s, true).unwrap();
            let f = fields.last();
            if let Some(b) = f.number {
                if let Some(enc) = axis_encoder(s, f.letter) {
                    let pos = le_bytes16(enc.spec_position(as_i16(b)));
                    let moved = d + seq![axis_tag(f.letter, false)] + pos;
                    let set = e + seq![axis_tag(f.letter, true)] + pos;
                    assert(move_data(fields, s, false) == Some(moved));
                    assert(move_data(fields, s, true) == Some(set));
                    assert(moved.len() == d.len() + 3);
                    assert(moved.len() % 3 == 0);
                    assert forall|i: int| 0 <= i < moved.len() implies #[trigger] byte_lowered(moved, set, i) by {
                        if i < d.len() {
                            assert(moved[i] == d[i]);
                            assert(set[i] == e[i]);
                            assert(byte_lowered(d, e, i));
                        } else if i == d.len() {
                            assert(i % 3 == 0);
                        } else {
                            assert(i % 3 != 0);
                            assert(moved[i] == pos[i - d.len() - 1]);
                            assert(set[i] == pos[i - d.len() - 1]);
                        }
                    }
                    assert(tags_lowered(moved, set));
                } else {
                    assert(move_data(fields, s, false) == Some(d));
                    assert(move_data(fields, s, true) == Some(e));
                }
            }
        }
    }
}

/// Whether the fields of a move can be read without overflow.
pub fn move_fits_check(fields: &[Field], setting: &Settings) -> (r: bool)
    ensures
        r == move_fits(fields@, *setting),
{
    let mut ok: bool = true;
    let mut numbered: bool = true;
    let mut i: usize = 0;
    while i < fields.len()
        invariant
            i <= fields.len(),
            ok == move_fits(fields@.take(i as int), *setting),
            numbered == (move_data(fields@.take(i as int), *setting, false) is Some),
        decreases fields.len() - i,
    {
        assert(fields@.take(i + 1).drop_last() =~= fields@.take(i as int));
        assert(fields@.take(i + 1).last() == fields@[i as int]);
        let field = fields[i];
        match field.number {
            Some(value) => {
                if numbered {
                    let mm = to_i16(value);
                    if field.letter == 'X' {
                        ok = ok && setting.x_coder.position_fits_check(mm);
                    } else if field.letter == 'Y' {
                        ok = ok && setting.y_coder.position_fits_check(mm);
                    } else if field.letter == 'Z' {
                        ok = ok && setting.z_coder.position_fits_check(mm);
                    }
                }
            },
            None => {
                numbered = false;
            },
        }
        i = i + 1;
    }
    assert(fields@.take(i as int) =~= fields@);
    ok
}

/// Linear move (`G0` and `G1`).
pub struct G0 {
    pub data: Vec<u8>,
}

impl G0 {
    pub fn scope(&self) -> (r: u8)
        ensures
            r == scope::ARDUINO,
    {
        scope::ARDUINO
    }

    pub fn data_arduino(&self) -> (r: &Vec<u8>)
        ensures
            r@ == self.data@,
    {
        &self.data
    }

    pub fn new(fields: &[Field], setting: &Settings) -> (r: Result<Self, ParseGcodeError>)
        requires
            move_fits(fields@, *setting),
        ensures
            match r {
                Ok(g) => move_data(fields@, *setting, false) == Some(g.data@),
                Err(_) => move_data(fields@, *setting, false) is None,
            },
    {
        let data = read_move(fields, setting, false)?;
        Ok(G0 { data })
    }
}

/// Set the current position (`G92`).
pub struct G92 {
    pub data: Vec<u8>,
}

impl G92 {
    pub fn scope(&self) -> (r: u8)
        ensures
            r == scope::ARDUINO,
    {
        scope::ARDUINO
    }

    pub fn data_arduino(&self) -> (r: &Vec<u8>)
        ensures
            r@ == self.data@,
    {
        &self.data
    }

    pub fn new(fields: &[Field], setting: &Settings) -> (r: Result<Self, ParseGcodeError>)
        requires
            move_fits(fields@, *setting),
        ensures
            match r {
                Ok(g) => move_data(fields@, *setting, true) == Some(g.data@),
                Err(_) => move_data(fields@, *setting, true) is None,
            },
    {
        let data = read_move(fields, setting, true)?;
        Ok(G92 { data })
    }
}

/// Total pause of a `G4` in milliseconds: `P` adds milliseconds and `S` seconds,
/// other letters are skipped and a field without a number is an error.
pub open spec fn pause_total(fields: Seq<Field>) -> Option<int>
    decreases fields.len(),
{
    if fields.len() == 0 {
        Some(0)
    } else {
        match pause_total(fields.drop_last()) {
            None => None,
            Some(p) => {
                let f = fields.last();
                match f.number {
                    None => None,
                    Some(b) => if f.letter == 'P' {
                        Some(p + as_u32(b))
                    } else if f.letter == 'S' {
                        Some(p + as_u32(b) * 1000)
                    } else {
                        Some(p)
                    },
                }
            },
        }
    }
}

/// Every sum and product computed while reading the pause fits in 32 bits.
pub open spec fn pause_fits(fields: Seq<Field>) -> bool
    decreases fields.len(),
{
    if fields.len() == 0 {
        true
    } else {
        &&& pause_fits(fields.drop_last())
        &&& match (pause_total(fields.drop_last()), fields.last().number) {
            (Some(p), Some(b)) => {
                &&& fields.last().letter == 'P' ==> p + as_u32(b) <= u32::MAX
                &&& fields.last().letter == 'S' ==> as_u32(b) * 1000 <= u32::MAX && p + as_u32(b)
                    * 1000 <= u32::MAX
            },
            _ => true,
        }
    }
}

proof fn lemma_pause_prefix(fields: Seq<Field>, n: int)
    requires
        0 <= n <= fields.len(),
    ensures
        pause_fits(fields) ==> pause_fits(fields.take(n)),
        pause_total(fields.take(n)) is None ==> pause_total(fields) is None,
    decreases fields.len() - n,
{
    if n < fields.len() {
        assert(fields.drop_last().take(n) =~= fields.take(n));
        lemma_pause_prefix(fields.drop_last(), n);
    } else {
        assert(fields.take(n) =~= fields);
    }
}

fn push_u32_le(data: &mut Vec<u8>, v: u32)
    ensures
        final(data)@ == old(data)@ + le_bytes32(v as int),
{
    data.push((v % 0x100) as u8);
    data.push(((v / 0x100) % 0x100) as u8);
    data.push(((v / 0x1_0000) % 0x100) as u8);
    data.push((v / 0x100_0000) as u8);
}

/// Pause (`G4`).
pub struct G4 {
    pub data: Vec<u8>,
}

impl G4 {
    pub fn scope(&self) -> (r: u8)
        ensures
            r == scope::ARDUINO,
    {
        scope::ARDUINO
    }

    pub fn data_arduino(&self) -> (r: &Vec<u8>)
        ensures
            r@ == self.data@,
    {
        &self.data
    }

    pub fn new(fields: &[Field], setting: &Settings) -> (r: Result<Self, ParseGcodeError>)
        requires
            pause_fits(fields@),
        ensures
            match r {
                Ok(g) => pause_total(fields@) matches Some(p) && g.data@ == seq!['P' as u8]
                    + le_bytes32(p),
                Err(_) => pause_total(fields@) is None,
            },
    {
        let mut pause: u32 = 0;
        let mut i: usize = 0;
        while i < fields.len()
            invariant
                i <= fields.len(),
                pause_fits(fields@),
                pause_total(fields@.take(i as int)) == Some(pause as int),
            decreases fields.len() - i,
        {
            let ghost prefix = fields@.take(i as int);
            assert(fields@.take(i + 1).drop_last() =~= prefix);
            proof {
                lemma_pause_prefix(fields@, i + 1);
            }
            let field = fields[i];
            match field.number {
                Some(value) => {
                    if field.letter == 'P' {
                        pause = pause + to_u32(value);
                    } else if field.letter == 'S' {
                        pause = pause + to_u32(value) * 1000;
                    }
                },
                None => {
                    return Err(ParseGcodeError);
                },
            }
            i = i + 1;
        }
        assert(fields@.take(i as int) =~= fields@);
        let mut data: Vec<u8> = Vec::new();
        data.push('P' as u8);
        push_u32_le(&mut data, pause);
        Ok(G4 { data })
    }
}

/// Whether the fields of a pause can be summed without overflow.
pub fn pause_fits_check(fields: &[Field]) -> (r: bool)
    ensures
        r == pause_fits(fields@),
{
    let mut ok: bool = true;
    let mut total: Option<u64> = Some(0);
    let mut i: usize = 0;
    while i < fields.len()
        invariant
            i <= fields.len(),
            ok == pause_fits(fields@.take(i as int)),
            ok ==> match total {
                Some(p) => pause_total(fields@.take(i as int)) == Some(p as int) && p <= u32::MAX,
                None => pause_total(fields@.take(i as int)) is None,
            },
        decreases fields.len() - i,
    {
        assert(fields@.take(i + 1).drop_last() =~= fields@.take(i as int));
        assert(fields@.take(i + 1).last() == fields@[i as int]);
        let field = fields[i];
        if ok {
            match (total, field.number) {
                (Some(p), Some(value)) => {
                    let b: u64 = to_u32(value) as u64;
                    if field.letter == 'P' {
                        if p + b <= u32::MAX as u64 {
                            total = Some(p + b);
                        } else {
                            ok = false;
                        }
                    } else if field.letter == 'S' {
                        if b * 1000 <= u32::MAX as u64 && p + b * 1000 <= u32::MAX as u64 {
                            total = Some(p + b * 1000);
                        } else {
                            ok = false;
                        }
                    }
                },
                (Some(_), None) => {
                    total = None;
                },
                (None, _) => {},
            }
        }
        i = i + 1;
    }
    assert(fields@.take(i as int) =~= fields@);
    ok
}

/// Some field up to `n` has the letter `c`.
pub open spec fn names_axis(fields: Seq<Field>, n: int, c: char) -> bool {
    exists|j: int| 0 <= j < n && fields[j].letter == c
}

/// The axes to home as bit flags: X is 1, Y is 2 and Z is 4.
pub open spec fn axis_flags(x: bool, y: bool, z: bool) -> u8 {
    ((if x { 1int } else { 0int }) + (if y { 2int } else { 0int }) + (if z { 4int } else { 0int })) as u8
}

/// The axes a `G28` homes: those its fields name, or all when it names none.
pub open spec fn home_mask(fields: Seq<Field>) -> u8 {
    let m = axis_flags(
        names_axis(fields, fields.len() as int, 'X'),
        names_axis(fields, fields.len() as int, 'Y'),
        names_axis(fields, fields.len() as int, 'Z'),
    );
    if m == 0 {
        7
    } else {
        m
    }
}

/// Return to home (`G28`).
pub struct G28 {
    pub data: Vec<u8>,
}

impl G28 {
    pub fn scope(&self) -> (r: u8)
        ensures
            r == scope::ARDUINO,
    {
        scope::ARDUINO
    }

    pub fn data_arduino(&self) -> (r: &Vec<u8>)
        ensures
            r@ == self.data@,
    {
        &self.data
    }

    pub fn new(fields: &[Field], setting: &Settings) -> (r: Result<Self, ParseGcodeError>)
        ensures
            match r {
                Ok(g) => (forall|j: int| 0 <= j < fields@.len() ==> fields@[j].number is None)
                    && g.data@ == seq!['H' as u8, home_mask(fields@)],
                Err(_) => exists|j: int| 0 <= j < fields@.len() && fields@[j].number is Some,
            },
    {
        let mut data: Vec<u8> = Vec::new();
        data.push('H' as u8);
        let mut val: u8 = 0b000;
        let mut i: usize = 0;
        while i < fields.len()
            invariant
                i <= fields.len(),
                forall|j: int| 0 <= j < i ==> fields@[j].number is None,
                val == axis_flags(
                    names_axis(fields@, i as int, 'X'),
                    names_axis(fields@, i as int, 'Y'),
                    names_axis(fields@, i as int, 'Z'),
                ),
                data@ == seq!['H' as u8],
            decreases fields.len() - i,
        {
            let field = fields[i];
            let ghost hx = names_axis(fields@, i as int, 'X');
            let ghost hy = names_axis(fields@, i as int, 'Y');
            let ghost hz = names_axis(fields@, i as int, 'Z');
            assert(names_axis(fields@, i + 1, 'X') == (hx || field.letter == 'X'));
            assert(names_axis(fields@, i + 1, 'Y') == (hy || field.letter == 'Y'));
            assert(names_axis(fields@, i + 1, 'Z') == (hz || field.letter == 'Z'));
            if field.number.is_none() {
                if field.letter == 'X' {
                    assert((axis_flags(hx, hy, hz) | 0b001u8) == axis_flags(true, hy, hz)) by (bit_vector);
                    val |= 0b001;
                } else if field.letter == 'Y' {
                    assert((axis_flags(hx, hy, hz) | 0b010u8) == axis_flags(hx, true, hz)) by (bit_vector);
                    val |= 0b010;
                } else if field.letter == 'Z' {
                    assert((axis_flags(hx, hy, hz) | 0b100u8) == axis_flags(hx, hy, true)) by (bit_vector);
                    val |= 0b100;
                }
            } else {
                return Err(ParseGcodeError);
            }
            i = i + 1;
        }
        if val == 0 {
            val = 0b111;
        }
        data.push(val);
        Ok(G28 { data })
    }
}

} // verus!
