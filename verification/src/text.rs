use vstd::prelude::*;

verus! {

/// The decimal digit character for `d` (0 to 9).
pub open spec fn digit_char(d: int) -> char {
    if d == 0 {
        '0'
    } else if d == 1 {
        '1'
    } else if d == 2 {
        '2'
    } else if d == 3 {
        '3'
    } else if d == 4 {
        '4'
    } else if d == 5 {
        '5'
    } else if d == 6 {
        '6'
    } else if d == 7 {
        '7'
    } else if d == 8 {
        '8'
    } else {
        '9'
    }
}

/// The decimal representation of `n`, most significant digit first, without
/// leading zeros.
pub open spec fn decimal(n: nat) -> Seq<char>
    decreases n,
{
    if n < 10 {
        seq![digit_char(n as int)]
    } else {
        decimal(n / 10).push(digit_char((n % 10) as int))
    }
}

fn digit_str(d: usize) -> (s: &'static str)
    requires
        d < 10,
    ensures
        s@ == seq![digit_char(d as int)],
{
    if d == 0 {
        proof { reveal_strlit("0"); }
        "0"
    } else if d == 1 {
        proof { reveal_strlit("1"); }
        "1"
    } else if d == 2 {
        proof { reveal_strlit("2"); }
        "2"
    } else if d == 3 {
        proof { reveal_strlit("3"); }
        "3"
    } else if d == 4 {
        proof { reveal_strlit("4"); }
        "4"
    } else if d == 5 {
        proof { reveal_strlit("5"); }
        "5"
    } else if d == 6 {
        proof { reveal_strlit("6"); }
        "6"
    } else if d == 7 {
        proof { reveal_strlit("7"); }
        "7"
    } else if d == 8 {
        proof { reveal_strlit("8"); }
        "8"
    } else {
        proof { reveal_strlit("9"); }
        "9"
    }
}

/// Appends the decimal representation of `n` to `out`.
pub fn push_decimal(out: &mut String, n: usize)
    ensures
        final(out)@ == old(out)@ + decimal(n as nat),
    decreases n,
{
    if n >= 10 {
        push_decimal(out, n / 10);
    }
    out.append(digit_str(n % 10));
    proof {
        if n >= 10 {
            assert(decimal(n as nat) == decimal((n / 10) as nat).push(digit_char((n % 10) as int)));
        }
    }
}

/// The name of the file holding the impulse response of loudspeaker
/// `speaker_index` (counted from 0) of decoder set `set_name`; loudspeakers
/// are numbered from 1 in the name.
pub fn speaker_file_name(set_name: &str, speaker_index: usize) -> (name: String)
    requires
        speaker_index < usize::MAX,
    ensures
        name@ == "Amir_Set"@ + set_name@ + "_Speaker_"@ + decimal(speaker_index as nat + 1) + ".wav"@,
{
    let mut name = String::from_str("Amir_Set");
    name.append(set_name);
    name.append("_Speaker_");
    push_decimal(&mut name, speaker_index + 1);
    name.append(".wav");
    name
}

/// The OBJ face line (without its line break) of triangle `triangle_index`,
/// whose three vertices are written as vertices `3i + 1`, `3i + 2`, `3i + 3`
/// (OBJ counts vertices from 1).
pub fn obj_face_line(triangle_index: usize) -> (line: String)
    requires
        3 * triangle_index + 3 <= usize::MAX,
    ensures
        line@ == "f "@ + decimal(3 * triangle_index as nat + 1) + " "@ + decimal(
            3 * triangle_index as nat + 2,
        ) + " "@ + decimal(3 * triangle_index as nat + 3),
{
    let start = triangle_index * 3 + 1;
    let mut line = String::from_str("f ");
    push_decimal(&mut line, start);
    line.append(" ");
    push_decimal(&mut line, start + 1);
    line.append(" ");
    push_decimal(&mut line, start + 2);
    line
}


proof fn lemma_decimal_len(n: nat)
    ensures
        decimal(n).len() >= 1,
        n >= 10 ==> decimal(n).len() >= 2,
        decimal(n).last() == digit_char((n % 10) as int),
    decreases n,
{
    if n >= 10 {
        lemma_decimal_len(n / 10);
    }
}

/// Different numbers have different decimal representations.
pub proof fn lemma_decimal_injective(a: nat, b: nat)
    requires
        decimal(a) == decimal(b),
    ensures
        a == b,
    decreases a,
{
    lemma_decimal_len(a);
    lemma_decimal_len(b);
    assert(a % 10 == b % 10);
    if a >= 10 && b >= 10 {
        assert(decimal(a).drop_last() == decimal(a / 10));
        assert(decimal(b).drop_last() == decimal(b / 10));
        lemma_decimal_injective(a / 10, b / 10);
    }
}

/// Within one decoder set, different loudspeakers get different file names;
/// sets whose names differ but have the same length never share a file name.
pub proof fn lemma_speaker_file_names_distinct(set_a: Seq<char>, i: nat, set_b: Seq<char>, j: nat)
    requires
        set_a.len() == set_b.len(),
        set_a != set_b || i != j,
    ensures
        "Amir_Set"@ + set_a + "_Speaker_"@ + decimal(i + 1) + ".wav"@ != "Amir_Set"@ + set_b
            + "_Speaker_"@ + decimal(j + 1) + ".wav"@,
{
    let p = "Amir_Set"@;
    let q = "_Speaker_"@;
    let w = ".wav"@;
    let x = p + set_a + q + decimal(i + 1) + w;
    let y = p + set_b + q + decimal(j + 1) + w;
    if x == y {
        let k = p.len() + set_a.len() + q.len();
        assert(x.subrange(p.len() as int, (p.len() + set_a.len()) as int) =~= set_a);
        assert(y.subrange(p.len() as int, (p.len() + set_b.len()) as int) =~= set_b);
        assert(set_a == set_b);
        assert(x.subrange(k as int, x.len() - w.len()) =~= decimal(i + 1));
        assert(y.subrange(k as int, y.len() - w.len()) =~= decimal(j + 1));
        lemma_decimal_injective(i + 1, j + 1);
    }
}

} // verus!
