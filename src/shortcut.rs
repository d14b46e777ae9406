//! Shortcut fields in readable form: hotkeys and show commands.
use vstd::prelude::*;

use crate::codec::string_from_chars;

verus! {

/// File metadata shown next to an entry.
pub struct FileMetadata {
    pub created_time: Option<String>,
    pub modified_time: Option<String>,
    pub accessed_time: Option<String>,
    pub file_size: Option<u64>,
    pub file_type: Option<String>,
}

/// Everything read from a shortcut file.
pub struct ShortcutInfo {
    pub target_path: String,
    pub icon_path: String,
    pub icon_index: i32,
    pub description: String,
    pub arguments: String,
    pub working_directory: String,
    pub hotkey: u16,
    pub show_command: i32,
}

/// The decimal digit character of `d`.
pub open spec fn digit_char(d: int) -> char {
    ((48 + d) as u8) as char
}

/// The decimal representation of a natural number.
pub open spec fn decimal(n: nat) -> Seq<char>
    decreases n,
{
    if n < 10 {
        seq![digit_char(n as int)]
    } else {
        decimal(n / 10).push(digit_char((n % 10) as int))
    }
}

/// The decimal representation of an integer, with a minus sign when negative.
pub open spec fn signed_decimal(n: int) -> Seq<char> {
    if n < 0 {
        seq!['-'] + decimal((-n) as nat)
    } else {
        decimal(n as nat)
    }
}

fn push_decimal(out: &mut Vec<char>, n: u64)
    ensures
        final(out)@ == old(out)@ + decimal(n as nat),
    decreases n,
{
    if n >= 10 {
        push_decimal(out, n / 10);
    }
    let d = (n % 10) as u8;
    out.push((48u8 + d) as char);
    proof {
        if n >= 10 {
            assert(decimal(n as nat) == decimal((n / 10) as nat).push(digit_char((n % 10) as int)));
        }
    }
}

/// The name of the key in the low byte of a hotkey: a letter, a digit, or a
/// function key F1 to F24; other keys have no name.
pub open spec fn key_name(key: u8) -> Seq<char> {
    if 0x41 <= key <= 0x5a || 0x30 <= key <= 0x39 {
        seq![key as char]
    } else if 0x70 <= key <= 0x87 {
        seq!['F'] + decimal((key - 0x6f) as nat)
    } else {
        Seq::empty()
    }
}

/// The readable parts of a hotkey: Shift, Ctrl and Alt as its high byte sets
/// them, then the key's name when it has one.
pub open spec fn hotkey_parts(hotkey: u16) -> Seq<Seq<char>> {
    let key = (hotkey % 256) as u8;
    let m = hotkey / 256;
    let a: Seq<Seq<char>> = if m % 2 == 1 {
        seq!["Shift"@]
    } else {
        Seq::empty()
    };
    let b: Seq<Seq<char>> = if (m / 2) % 2 == 1 {
        a.push("Ctrl"@)
    } else {
        a
    };
    let c: Seq<Seq<char>> = if (m / 4) % 2 == 1 {
        b.push("Alt"@)
    } else {
        b
    };
    if key_name(key).len() > 0 {
        c.push(key_name(key))
    } else {
        c
    }
}

/// Parts joined with `+`.
pub open spec fn joined(parts: Seq<Seq<char>>) -> Seq<char>
    decreases parts.len(),
{
    if parts.len() == 0 {
        Seq::empty()
    } else if parts.len() == 1 {
        parts[0]
    } else {
        joined(parts.drop_last()) + seq!['+'] + parts.last()
    }
}

fn push_str_chars(out: &mut Vec<char>, s: &str)
    ensures
        final(out)@ == old(out)@ + s@,
{
    let n = s.unicode_len();
    let ghost start = out@;
    let mut i: usize = 0;
    while i < n
        invariant
            n == s@.len(),
            i <= n,
            out@ == start + s@.subrange(0, i as int),
        decreases n - i,
    {
        out.push(s.get_char(i));
        assert(start + s@.subrange(0, i + 1) =~= (start + s@.subrange(0, i as int)).push(
            s@[i as int],
        ));
        i = i + 1;
    }
    assert(s@.subrange(0, n as int) =~= s@);
}

fn append_part(out: &mut Vec<char>, count: &mut usize, part: &str, ghost_parts: Ghost<Seq<Seq<char>>>)
    requires
        *old(count) == ghost_parts@.len(),
        old(out)@ == joined(ghost_parts@),
        *old(count) < 8,
    ensures
        *final(count) == *old(count) + 1,
        final(out)@ == joined(ghost_parts@.push(part@)),
{
    let ghost ps = ghost_parts@.push(part@);
    assert(ps.drop_last() =~= ghost_parts@);
    if *count > 0 {
        out.push('+');
    }
    push_str_chars(out, part);
    *count = *count + 1;
    proof {
        if ghost_parts@.len() == 0 {
            assert(old(out)@ == Seq::<char>::empty());
            assert(final(out)@ =~= part@);
        } else {
            assert(final(out)@ =~= joined(ghost_parts@) + seq!['+'] + part@);
        }
    }
}

/// The readable form of a shortcut hotkey, such as `Ctrl+Alt+F5`; `None` for
/// no hotkey, or one with no readable part.
pub fn hotkey_to_string(hotkey: u16) -> (r: Option<String>)
    ensures
        hotkey == 0 ==> r is None,
        hotkey != 0 && hotkey_parts(hotkey).len() == 0 ==> r is None,
        hotkey != 0 && hotkey_parts(hotkey).len() > 0 ==> (r matches Some(s) && s@ == joined(
            hotkey_parts(hotkey),
        )),
{
    if hotkey == 0 {
        return None;
    }
    proof {
        reveal_strlit("Shift");
        reveal_strlit("Ctrl");
        reveal_strlit("Alt");
    }
    let key: u8 = (hotkey % 256) as u8;
    let m: u16 = hotkey / 256;
    let mut out: Vec<char> = Vec::new();
    let mut count: usize = 0;
    let ghost mut parts: Seq<Seq<char>> = Seq::empty();
    if m % 2 == 1 {
        append_part(&mut out, &mut count, "Shift", Ghost(parts));
        proof {
            parts = parts.push("Shift"@);
        }
    }
    if (m / 2) % 2 == 1 {
        append_part(&mut out, &mut count, "Ctrl", Ghost(parts));
        proof {
            parts = parts.push("Ctrl"@);
        }
    }
    if (m / 4) % 2 == 1 {
        append_part(&mut out, &mut count, "Alt", Ghost(parts));
        proof {
            parts = parts.push("Alt"@);
        }
    }
    let mut name: Vec<char> = Vec::new();
    if (0x41 <= key && key <= 0x5a) || (0x30 <= key && key <= 0x39) {
        name.push(key as char);
    } else if 0x70 <= key && key <= 0x87 {
        name.push('F');
        push_decimal(&mut name, (key - 0x6f) as u64);
    }
    assert(name@ =~= key_name(key));
    if name.len() > 0 {
        let ghost ps = parts.push(name@);
        assert(ps.drop_last() =~= parts);
        if count > 0 {
            out.push('+');
        }
        let mut k: usize = 0;
        let ghost start = out@;
        while k < name.len()
            invariant
                k <= name@.len(),
                out@ == start + name@.subrange(0, k as int),
            decreases name@.len() - k,
        {
            out.push(name[k]);
            assert(start + name@.subrange(0, k + 1) =~= (start + name@.subrange(0, k as int)).push(
                name@[k as int],
            ));
            k = k + 1;
        }
        assert(name@.subrange(0, name@.len() as int) =~= name@);
        proof {
            if parts.len() == 0 {
                assert(out@ =~= name@);
            } else {
                assert(out@ =~= joined(parts) + seq!['+'] + name@);
            }
        }
        count = count + 1;
        proof {
            parts = ps;
        }
    }
    assert(parts =~= hotkey_parts(hotkey));
    if count == 0 {
        None
    } else {
        Some(string_from_chars(&out))
    }
}

/// The readable form of a window show command; unknown values are shown by
/// their number.
pub fn show_command_to_string(show_cmd: i32) -> (r: String)
    ensures
        show_cmd == 1 ==> r@ == "正常窗口"@,
        show_cmd == 2 ==> r@ == "最小化"@,
        show_cmd == 3 ==> r@ == "最大化"@,
        show_cmd == 7 ==> r@ == "最小化无激活"@,
        show_cmd != 1 && show_cmd != 2 && show_cmd != 3 && show_cmd != 7 ==> r@ == "未知("@
            + signed_decimal(show_cmd as int) + ")"@,
{
    if show_cmd == 1 {
        String::from_str("正常窗口")
    } else if show_cmd == 2 {
        String::from_str("最小化")
    } else if show_cmd == 3 {
        String::from_str("最大化")
    } else if show_cmd == 7 {
        String::from_str("最小化无激活")
    } else {
        let mut out: Vec<char> = Vec::new();
        push_str_chars(&mut out, "未知(");
        if show_cmd < 0 {
            out.push('-');
            push_decimal(&mut out, (0i64 - show_cmd as i64) as u64);
        } else {
            push_decimal(&mut out, show_cmd as u64);
        }
        push_str_chars(&mut out, ")");
        proof {
            if show_cmd < 0 {
                assert(out@ =~= "未知("@ + signed_decimal(show_cmd as int) + ")"@);
            } else {
                assert(out@ =~= "未知("@ + signed_decimal(show_cmd as int) + ")"@);
            }
        }
        string_from_chars(&out)
    }
}

} // verus!
