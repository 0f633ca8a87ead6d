//! A lexical pre-check of a snippet: delimiter balance and a few telltale
//! patterns. It runs no toolchain, so it is a cheap filter and no verdict on
//! whether the snippet compiles.

use vstd::prelude::*;
use crate::text::{chars_of, contains_str, count_char, count_of, decimal, has_substring, push_decimal};

verus! {

/// Separator between the findings of one report.
pub open spec fn finding_sep() -> Seq<char> {
    "; "@
}

/// `m` as a one-element list where `b` holds, else nothing.
pub open spec fn note(b: bool, m: Seq<char>) -> Seq<Seq<char>> {
    if b {
        seq![m]
    } else {
        seq![]
    }
}

/// The elements of `parts` with `sep` between neighbours.
pub open spec fn joined(parts: Seq<Seq<char>>, sep: Seq<char>) -> Seq<char>
    decreases parts.len(),
{
    if parts.len() == 0 {
        seq![]
    } else if parts.len() == 1 {
        parts[0]
    } else {
        joined(parts.drop_last(), sep) + sep + parts.last()
    }
}

/// A finding that reports two counts.
pub open spec fn count_finding(
    label: Seq<char>,
    o: nat,
    mid: Seq<char>,
    c: nat,
    tail: Seq<char>,
) -> Seq<char> {
    label + decimal(o) + mid + decimal(c) + tail
}

/// Whether `s` looks like free functions with no entry point.
pub open spec fn lacks_main(s: Seq<char>) -> bool {
    has_substring(s, "fn "@) && !has_substring(s, "fn main"@) && !has_substring(s, "pub fn"@)
        && !has_substring(s, "impl "@)
}

/// The findings on `s`, in the order in which they are reported.
pub open spec fn findings(s: Seq<char>) -> Seq<Seq<char>> {
    note(
        count_of(s, '{') != count_of(s, '}'),
        count_finding(
            "Llaves desbalanceadas: "@,
            count_of(s, '{'),
            " abiertas, "@,
            count_of(s, '}'),
            " cerradas"@,
        ),
    ) + note(
        count_of(s, '(') != count_of(s, ')'),
        count_finding(
            "Paréntesis desbalanceados: "@,
            count_of(s, '('),
            " abiertos, "@,
            count_of(s, ')'),
            " cerrados"@,
        ),
    ) + note(
        count_of(s, '[') != count_of(s, ']'),
        count_finding(
            "Corchetes desbalanceados: "@,
            count_of(s, '['),
            " abiertos, "@,
            count_of(s, ']'),
            " cerrados"@,
        ),
    ) + note(lacks_main(s), "Posible falta de función main() para un programa ejecutable"@)
        + note(has_substring(s, "std::process::Command"@), "Uso de Command puede ser peligroso"@)
        + note(
        has_substring(s, "std::fs::remove"@),
        "Operación de eliminación de archivos detectada"@,
    ) + note(
        has_substring(s, "unsafe {"@),
        "Bloque unsafe detectado - requiere revisión manual"@,
    ) + note(
        has_substring(s, "let "@) && !has_substring(s, seq![';']),
        "Posible falta de punto y coma en declaración let"@,
    ) + note(
        has_substring(s, "fn "@) && has_substring(s, "{}"@),
        "Función con cuerpo vacío detectada"@,
    )
}

/// The report on `s`: its findings joined, or nothing where there are none.
pub open spec fn report(s: Seq<char>) -> Option<Seq<char>> {
    if findings(s).len() == 0 {
        None
    } else {
        Some(joined(findings(s), finding_sep()))
    }
}

/// The running report, extended by the findings `note(b, m)`.
fn add_finding(out: &mut String, n: &mut usize, b: bool, m: &str, parts: Ghost<Seq<Seq<char>>>)
    requires
        old(out)@ == joined(parts@, finding_sep()),
        *old(n) == parts@.len(),
        parts@.len() < 16,
    ensures
        final(out)@ == joined(parts@ + note(b, m@), finding_sep()),
        *final(n) == (parts@ + note(b, m@)).len(),
{
    if b {
        let ghost next = parts@ + note(b, m@);
        assert(next.drop_last() =~= parts@);
        if *n > 0 {
            out.append("; ");
        }
        out.append(m);
        *n = *n + 1;
        proof {
            assert(final(out)@ =~= joined(next, finding_sep()));
        }
    } else {
        assert(parts@ + note(b, m@) =~= parts@);
    }
}

/// The finding text for two counts.
fn count_message(label: &str, o: usize, mid: &str, c: usize, tail: &str) -> (r: String)
    ensures
        r@ == count_finding(label@, o as nat, mid@, c as nat, tail@),
{
    let mut r = String::from_str(label);
    push_decimal(&mut r, o);
    r.append(mid);
    push_decimal(&mut r, c);
    r.append(tail);
    r
}

/// Lexical pre-check of `codigo`. Returns whether it raised no finding, and
/// the findings joined by `"; "` where it raised any.
#[verifier::rlimit(40)]
pub fn validate_code(codigo: &str) -> (r: (bool, Option<String>))
    ensures
        r.0 == (findings(codigo@).len() == 0),
        r.0 ==> r.1 is None,
        !r.0 ==> (r.1 matches Some(m) && m@ == joined(findings(codigo@), finding_sep())),
{
    let s = chars_of(codigo);
    let mut out = String::new();
    let mut n: usize = 0;
    let ghost parts: Seq<Seq<char>> = seq![];
    proof {
        assert(out@ =~= joined(parts, finding_sep()));
    }

    let ob = count_char(&s, '{');
    let cb = count_char(&s, '}');
    let m = count_message("Llaves desbalanceadas: ", ob, " abiertas, ", cb, " cerradas");
    add_finding(&mut out, &mut n, ob != cb, m.as_str(), Ghost(parts));
    proof {
        assert(parts + note(ob != cb, m@) =~= note(ob != cb, m@));
        parts = note(ob != cb, m@);
    }

    let op = count_char(&s, '(');
    let cp = count_char(&s, ')');
    let m = count_message("Paréntesis desbalanceados: ", op, " abiertos, ", cp, " cerrados");
    add_finding(&mut out, &mut n, op != cp, m.as_str(), Ghost(parts));
    proof { parts = parts + note(op != cp, m@); }

    let oc = count_char(&s, '[');
    let cc = count_char(&s, ']');
    let m = count_message("Corchetes desbalanceados: ", oc, " abiertos, ", cc, " cerrados");
    add_finding(&mut out, &mut n, oc != cc, m.as_str(), Ghost(parts));
    proof { parts = parts + note(oc != cc, m@); }

    let has_fn = contains_str(&s, "fn ");
    let has_main = contains_str(&s, "fn main");
    let has_pub_fn = contains_str(&s, "pub fn");
    let has_impl = contains_str(&s, "impl ");
    let b = has_fn && !has_main && !has_pub_fn && !has_impl;
    let m = "Posible falta de función main() para un programa ejecutable";
    add_finding(&mut out, &mut n, b, m, Ghost(parts));
    proof { parts = parts + note(b, m@); }

    let b = contains_str(&s, "std::process::Command");
    let m = "Uso de Command puede ser peligroso";
    add_finding(&mut out, &mut n, b, m, Ghost(parts));
    proof { parts = parts + note(b, m@); }

    let b = contains_str(&s, "std::fs::remove");
    let m = "Operación de eliminación de archivos detectada";
    add_finding(&mut out, &mut n, b, m, Ghost(parts));
    proof { parts = parts + note(b, m@); }

    let b = contains_str(&s, "unsafe {");
    let m = "Bloque unsafe detectado - requiere revisión manual";
    add_finding(&mut out, &mut n, b, m, Ghost(parts));
    proof { parts = parts + note(b, m@); }

    let semi = vec![';'];
    assert(semi@ =~= seq![';']);
    let b = contains_str(&s, "let ") && !crate::text::contains_chars(&s, &semi);
    let m = "Posible falta de punto y coma en declaración let";
    add_finding(&mut out, &mut n, b, m, Ghost(parts));
    proof { parts = parts + note(b, m@); }

    let b = has_fn && contains_str(&s, "{}");
    let m = "Función con cuerpo vacío detectada";
    add_finding(&mut out, &mut n, b, m, Ghost(parts));
    proof {
        parts = parts + note(b, m@);
        assert(s@ == codigo@);
        assert(parts == findings(codigo@));
    }

    if n == 0 {
        (true, None)
    } else {
        (false, Some(out))
    }
}

} // verus!
