//! The wire codec of the bridge's two data types.
//!
//! A status record crosses the host boundary as a JSON object with the
//! exact field names `isOptimized` and `isIgnoringOptimizations`.  An
//! error crosses it as a discriminated object keyed by `kind`; an
//! invocation failure additionally carries its message under `message`,
//! with `"` and `\` in the message escaped by a backslash.  Both encoders
//! produce a canonical text, and both decoders accept exactly the
//! canonical texts, so that decoding an encoded value recovers it.

use crate::error::Error;
use crate::BatteryStatus;
use vstd::prelude::*;

verus! {

/// The wire image of a boolean.
pub open spec fn bool_wire(b: bool) -> Seq<char> {
    if b {
        "true"@
    } else {
        "false"@
    }
}

/// The canonical wire image of a status record:
/// `{"isOptimized":<bool>,"isIgnoringOptimizations":<bool>}`.
pub open spec fn status_wire(s: BatteryStatus) -> Seq<char> {
    "{\"isOptimized\":"@ + bool_wire(s.is_optimized) + ",\"isIgnoringOptimizations\":"@
        + bool_wire(s.is_ignoring_optimizations) + "}"@
}

fn append_bool(out: &mut String, b: bool)
    ensures
        final(out)@ == old(out)@ + bool_wire(b),
{
    if b {
        out.append("true");
    } else {
        out.append("false");
    }
}

/// Encode a status record as its canonical wire text.
pub fn encode_battery_status(s: &BatteryStatus) -> (r: String)
    ensures
        r@ == status_wire(*s),
{
    let mut out = String::from_str("{\"isOptimized\":");
    append_bool(&mut out, s.is_optimized);
    out.append(",\"isIgnoringOptimizations\":");
    append_bool(&mut out, s.is_ignoring_optimizations);
    out.append("}");
    out
}

/// Decode a status record from its canonical wire text.
///
/// Returns the unique record whose canonical wire image is `text`, and
/// `None` exactly when `text` is the image of no record.
pub fn decode_battery_status(text: &str) -> (r: Option<BatteryStatus>)
    ensures
        match r {
            Some(s) => text@ == status_wire(s),
            None => forall|s: BatteryStatus| text@ != status_wire(s),
        },
{
    let t = String::from_str(text);
    let ff = BatteryStatus { is_optimized: false, is_ignoring_optimizations: false };
    let ft = BatteryStatus { is_optimized: false, is_ignoring_optimizations: true };
    let tf = BatteryStatus { is_optimized: true, is_ignoring_optimizations: false };
    let tt = BatteryStatus { is_optimized: true, is_ignoring_optimizations: true };
    if t == encode_battery_status(&ff) {
        Some(ff)
    } else if t == encode_battery_status(&ft) {
        Some(ft)
    } else if t == encode_battery_status(&tf) {
        Some(tf)
    } else if t == encode_battery_status(&tt) {
        Some(tt)
    } else {
        proof {
            assert forall|s: BatteryStatus| text@ != status_wire(s) by {
                if s.is_optimized {
                    if s.is_ignoring_optimizations {
                        assert(s == tt);
                    } else {
                        assert(s == tf);
                    }
                } else {
                    if s.is_ignoring_optimizations {
                        assert(s == ft);
                    } else {
                        assert(s == ff);
                    }
                }
            }
        }
        None
    }
}

/// Law: the canonical wire images of two status records coincide only when
/// the records coincide.  Together with the codec contracts this gives the
/// round trip: decoding the encoding of a record yields that record and no
/// other.
pub proof fn lemma_status_wire_injective(s1: BatteryStatus, s2: BatteryStatus)
    ensures
        status_wire(s1) == status_wire(s2) ==> s1 == s2,
{
    reveal_strlit("{\"isOptimized\":");
    reveal_strlit(",\"isIgnoringOptimizations\":");
    reveal_strlit("}");
    reveal_strlit("true");
    reveal_strlit("false");
    if status_wire(s1) == status_wire(s2) {
        if s1.is_optimized != s2.is_optimized {
            if s1.is_ignoring_optimizations == s2.is_ignoring_optimizations {
                assert(status_wire(s1).len() != status_wire(s2).len());
            } else {
                assert(status_wire(s1)[15] != status_wire(s2)[15]);
            }
        }
        if s1.is_ignoring_optimizations != s2.is_ignoring_optimizations {
            assert(status_wire(s1).len() != status_wire(s2).len());
        }
        assert(s1 == s2);
    }
}

/// The wire image of one message character: `"` and `\` are preceded by a
/// backslash, every other character stands for itself.
pub open spec fn escaped_char(c: char) -> Seq<char> {
    if c == '"' || c == '\\' {
        seq!['\\', c]
    } else {
        seq![c]
    }
}

/// The wire image of a message: its characters' images, in order.
pub open spec fn escaped(m: Seq<char>) -> Seq<char>
    decreases m.len(),
{
    if m.len() == 0 {
        Seq::empty()
    } else {
        escaped_char(m[0]) + escaped(m.subrange(1, m.len() as int))
    }
}

/// The canonical wire image of the not-supported error.
pub open spec fn not_supported_wire() -> Seq<char> {
    "{\"kind\":\"notSupported\"}"@
}

/// The opening of the invocation-failure image, up to the message.
pub open spec fn plugin_invoke_prefix() -> Seq<char> {
    "{\"kind\":\"pluginInvoke\",\"message\":\""@
}

/// The canonical wire image of an invocation failure with message `m`:
/// `{"kind":"pluginInvoke","message":"<m, escaped>"}`.
pub open spec fn plugin_invoke_wire(m: Seq<char>) -> Seq<char> {
    plugin_invoke_prefix() + escaped(m) + "\"}"@
}

/// The canonical wire image of an error.
pub open spec fn error_wire(e: Error) -> Seq<char> {
    match e {
        Error::PluginInvoke(m) => plugin_invoke_wire(m@),
        Error::NotSupported => not_supported_wire(),
    }
}

proof fn lemma_escaped_push(m: Seq<char>, c: char)
    ensures
        escaped(m.push(c)) == escaped(m) + escaped_char(c),
    decreases m.len(),
{
    let mp = m.push(c);
    if m.len() == 0 {
        assert(mp[0] == c);
        assert(mp.subrange(1, mp.len() as int) =~= Seq::<char>::empty());
        assert(escaped(mp.subrange(1, mp.len() as int)) == Seq::<char>::empty());
        assert(escaped(mp) =~= escaped_char(c));
        assert(escaped(m) == Seq::<char>::empty());
        assert(escaped(mp) =~= escaped(m) + escaped_char(c));
    } else {
        assert(mp.subrange(1, mp.len() as int) =~= m.subrange(1, m.len() as int).push(c));
        lemma_escaped_push(m.subrange(1, m.len() as int), c);
        assert(escaped(mp) =~= escaped(m) + escaped_char(c));
    }
}

proof fn lemma_escaped_len(m: Seq<char>)
    ensures
        escaped(m).len() >= m.len(),
    decreases m.len(),
{
    if m.len() > 0 {
        lemma_escaped_len(m.subrange(1, m.len() as int));
    }
}

proof fn lemma_escaped_head(b: Seq<char>)
    requires
        b.len() > 0,
    ensures
        escaped(b).len() >= 1,
        escaped(b)[0] != '"',
        escaped(b)[0] == '\\' ==> escaped(b).len() >= 2 && (escaped(b)[1] == '"' || escaped(b)[1]
            == '\\') && b[0] == escaped(b)[1] && escaped(b).subrange(2, escaped(b).len() as int)
            == escaped(b.subrange(1, b.len() as int)),
        escaped(b)[0] != '\\' ==> b[0] == escaped(b)[0] && escaped(b).subrange(
            1,
            escaped(b).len() as int,
        ) == escaped(b.subrange(1, b.len() as int)),
{
    let rest = escaped(b.subrange(1, b.len() as int));
    if b[0] == '"' || b[0] == '\\' {
        assert(escaped(b) =~= seq!['\\', b[0]] + rest);
        assert(escaped(b).subrange(2, escaped(b).len() as int) =~= rest);
    } else {
        assert(escaped(b) =~= seq![b[0]] + rest);
        assert(escaped(b).subrange(1, escaped(b).len() as int) =~= rest);
    }
}

proof fn lemma_escaped_prefix(m: Seq<char>, a: Seq<char>, rest: Seq<char>)
    requires
        escaped(m) == escaped(a) + rest,
    ensures
        a.len() <= m.len(),
        a == m.subrange(0, a.len() as int),
        rest == escaped(m.subrange(a.len() as int, m.len() as int)),
    decreases a.len(),
{
    if a.len() == 0 {
        assert(escaped(a) == Seq::<char>::empty());
        assert(rest =~= escaped(m));
        assert(m.subrange(0, m.len() as int) =~= m);
        assert(a =~= m.subrange(0, 0));
    } else {
        lemma_escaped_len(a);
        if m.len() == 0 {
            assert(escaped(m).len() == 0);
            assert(false);
        }
        lemma_escaped_head(m);
        lemma_escaped_head(a);
        let em = escaped(m);
        let ea = escaped(a);
        let mt = m.subrange(1, m.len() as int);
        let at = a.subrange(1, a.len() as int);
        assert(em[0] == ea[0]);
        if ea[0] == '\\' {
            assert(em[1] == ea[1]);
            assert(m[0] == a[0]);
            assert(em.subrange(2, em.len() as int) =~= ea.subrange(2, ea.len() as int) + rest);
            assert(escaped(mt) == escaped(at) + rest);
        } else {
            assert(m[0] == a[0]);
            assert(em.subrange(1, em.len() as int) =~= ea.subrange(1, ea.len() as int) + rest);
            assert(escaped(mt) == escaped(at) + rest);
        }
        lemma_escaped_prefix(mt, at, rest);
        assert forall|j: int| 0 <= j < a.len() implies a[j] == m.subrange(0, a.len() as int)[j] by {
            if j >= 1 {
                assert(a[j] == at[j - 1]);
                assert(at[j - 1] == mt.subrange(0, at.len() as int)[j - 1]);
                assert(mt[j - 1] == m[j]);
            }
        };
        assert(a =~= m.subrange(0, a.len() as int));
        assert(mt.subrange(at.len() as int, mt.len() as int) =~= m.subrange(
            a.len() as int,
            m.len() as int,
        ));
    }
}

proof fn lemma_escaped_injective(a: Seq<char>, b: Seq<char>)
    ensures
        escaped(a) == escaped(b) ==> a == b,
{
    if escaped(a) == escaped(b) {
        assert(escaped(b) =~= escaped(a) + Seq::<char>::empty());
        lemma_escaped_prefix(b, a, Seq::<char>::empty());
        let suffix = b.subrange(a.len() as int, b.len() as int);
        lemma_escaped_len(suffix);
        assert(suffix.len() == 0);
        assert(a =~= b);
    }
}

proof fn lemma_plugin_invoke_parts(m: Seq<char>)
    ensures
        plugin_invoke_prefix().len() == 34,
        plugin_invoke_wire(m).len() == escaped(m).len() + 36,
        plugin_invoke_wire(m).subrange(0, 34) == plugin_invoke_prefix(),
        plugin_invoke_wire(m).subrange(34, plugin_invoke_wire(m).len() - 2) == escaped(m),
        plugin_invoke_wire(m)[plugin_invoke_wire(m).len() - 2] == '"',
        plugin_invoke_wire(m)[plugin_invoke_wire(m).len() - 1] == '}',
        not_supported_wire().len() == 23,
{
    reveal_strlit("{\"kind\":\"pluginInvoke\",\"message\":\"");
    reveal_strlit("\"}");
    reveal_strlit("{\"kind\":\"notSupported\"}");
    let w = plugin_invoke_wire(m);
    assert(w.subrange(0, 34) =~= plugin_invoke_prefix());
    assert(w.subrange(34, w.len() - 2) =~= escaped(m));
}

/// Law: the canonical wire images of two errors coincide only when the
/// errors are the same variant with the same message text.  Together with
/// the codec contracts this gives the round trip: decoding the encoding of
/// an error yields that error and no other.
pub proof fn lemma_error_wire_injective(e1: Error, e2: Error)
    ensures
        error_wire(e1) == error_wire(e2) ==> match (e1, e2) {
            (Error::PluginInvoke(m1), Error::PluginInvoke(m2)) => m1@ == m2@,
            (Error::NotSupported, Error::NotSupported) => true,
            _ => false,
        },
{
    if error_wire(e1) == error_wire(e2) {
        match (e1, e2) {
            (Error::PluginInvoke(m1), Error::PluginInvoke(m2)) => {
                lemma_plugin_invoke_parts(m1@);
                lemma_plugin_invoke_parts(m2@);
                assert(escaped(m1@) == escaped(m2@));
                lemma_escaped_injective(m1@, m2@);
            },
            (Error::PluginInvoke(m1), Error::NotSupported) => {
                lemma_plugin_invoke_parts(m1@);
                assert(false);
            },
            (Error::NotSupported, Error::PluginInvoke(m2)) => {
                lemma_plugin_invoke_parts(m2@);
                assert(false);
            },
            (Error::NotSupported, Error::NotSupported) => {},
        }
    }
}

/// Encode an error as its canonical wire text.
pub fn encode_error(e: &Error) -> (r: String)
    ensures
        r@ == error_wire(*e),
{
    match e {
        Error::NotSupported => String::from_str("{\"kind\":\"notSupported\"}"),
        Error::PluginInvoke(m) => {
            let mut out = String::from_str("{\"kind\":\"pluginInvoke\",\"message\":\"");
            let ms = m.as_str();
            let n: usize = ms.unicode_len();
            let mut i: usize = 0;
            while i < n
                invariant
                    n == ms@.len(),
                    ms@ == m@,
                    i <= n,
                    out@ == plugin_invoke_prefix() + escaped(m@.subrange(0, i as int)),
                decreases n - i,
            {
                let c = ms.get_char(i);
                proof {
                    reveal_strlit("\\");
                    lemma_escaped_push(m@.subrange(0, i as int), m@[i as int]);
                    assert(m@.subrange(0, i + 1 as int) =~= m@.subrange(0, i as int).push(
                        m@[i as int],
                    ));
                }
                if c == '"' || c == '\\' {
                    out.append("\\");
                }
                out.append(ms.substring_char(i, i + 1));
                proof {
                    assert(ms@.subrange(i as int, i + 1 as int) =~= seq![m@[i as int]]);
                    assert(out@ =~= plugin_invoke_prefix() + escaped(m@.subrange(0, i + 1 as int)));
                }
                i = i + 1;
            }
            out.append("\"}");
            proof {
                assert(m@.subrange(0, n as int) =~= m@);
                assert(out@ =~= plugin_invoke_wire(m@));
            }
            out
        },
    }
}

proof fn lemma_scan_state(t: Seq<char>, m: Seq<char>, done: Seq<char>, i: int)
    requires
        t == plugin_invoke_wire(m),
        escaped(done) == t.subrange(34, i),
        34 <= i <= t.len(),
    ensures
        i <= t.len() - 2,
        done.len() <= m.len(),
        escaped(m.subrange(done.len() as int, m.len() as int)) == t.subrange(i, t.len() - 2),
{
    lemma_plugin_invoke_parts(m);
    let em = escaped(m);
    let n: int = t.len() as int;
    if i <= n - 2 {
        assert(em =~= escaped(done) + t.subrange(i, n - 2));
        lemma_escaped_prefix(m, done, t.subrange(i, n - 2));
    } else if i == n - 1 {
        assert(escaped(done) =~= em + seq!['"']);
        lemma_escaped_prefix(done, m, seq!['"']);
        let b = done.subrange(m.len() as int, done.len() as int);
        assert(escaped(b) == seq!['"']);
        if b.len() == 0 {
            assert(escaped(b) == Seq::<char>::empty());
        }
        lemma_escaped_head(b);
        assert(false);
    } else {
        assert(escaped(done) =~= em + seq!['"', '}']);
        lemma_escaped_prefix(done, m, seq!['"', '}']);
        let b = done.subrange(m.len() as int, done.len() as int);
        assert(escaped(b) == seq!['"', '}']);
        if b.len() == 0 {
            assert(escaped(b) == Seq::<char>::empty());
        }
        lemma_escaped_head(b);
        assert(false);
    }
}

/// Decode an error from its canonical wire text.
///
/// Returns an error whose canonical wire image is `text` (unique up to
/// the message text, by `lemma_error_wire_injective`), and `None` exactly
/// when `text` is the image of no error.
pub fn decode_error(text: &str) -> (r: Option<Error>)
    ensures
        match r {
            Some(e) => text@ == error_wire(e),
            None => forall|e: Error| text@ != error_wire(e),
        },
{
    let t = String::from_str(text);
    if t == String::from_str("{\"kind\":\"notSupported\"}") {
        return Some(Error::NotSupported);
    }
    let n: usize = text.unicode_len();
    let p: usize = "{\"kind\":\"pluginInvoke\",\"message\":\"".unicode_len();
    proof {
        lemma_plugin_invoke_parts(Seq::<char>::empty());
    }
    if n < p + 2 {
        proof {
            assert forall|e: Error| text@ != error_wire(e) by {
                if text@ == error_wire(e) {
                    match e {
                        Error::NotSupported => {
                            assert(false);
                        },
                        Error::PluginInvoke(m) => {
                            lemma_plugin_invoke_parts(m@);
                            assert(false);
                        },
                    }
                }
            }
        }
        return None;
    }
    let pre = text.substring_char(0, p);
    let pre_ok = String::from_str(pre) == String::from_str(
        "{\"kind\":\"pluginInvoke\",\"message\":\"",
    );
    if !pre_ok {
        proof {
            assert forall|e: Error| text@ != error_wire(e) by {
                if text@ == error_wire(e) {
                    match e {
                        Error::NotSupported => {
                            assert(false);
                        },
                        Error::PluginInvoke(m) => {
                            lemma_plugin_invoke_parts(m@);
                            assert(pre@ == plugin_invoke_prefix());
                            assert(false);
                        },
                    }
                }
            }
        }
        return None;
    }
    let mut out = String::new();
    let mut i: usize = p;
    loop
        invariant
            n == text@.len(),
            34 <= i <= n,
            n >= 36,
            escaped(out@) == text@.subrange(34, i as int),
            text@.subrange(0, 34) == plugin_invoke_prefix(),
            text@ != not_supported_wire(),
        decreases n - i,
    {
        if i >= n {
            proof {
                assert forall|e: Error| text@ != error_wire(e) by {
                    if text@ == error_wire(e) {
                        match e {
                            Error::NotSupported => {
                                assert(false);
                            },
                            Error::PluginInvoke(m) => {
                                lemma_scan_state(text@, m@, out@, i as int);
                                assert(false);
                            },
                        }
                    }
                }
            }
            return None;
        }
        let c = text.get_char(i);
        if c == '"' {
            if i == n - 2 {
                let c2 = text.get_char(i + 1);
                if c2 == '}' {
                    proof {
                        lemma_plugin_invoke_parts(out@);
                        let w = plugin_invoke_wire(out@);
                        assert forall|j: int| 0 <= j < n implies text@[j] == w[j] by {
                            if j < 34 {
                                assert(text@[j] == text@.subrange(0, 34)[j]);
                                assert(w[j] == w.subrange(0, 34)[j]);
                            } else if j < i {
                                assert(text@[j] == text@.subrange(34, i as int)[j - 34]);
                                assert(w[j] == w.subrange(34, w.len() - 2)[j - 34]);
                            }
                        };
                        assert(text@ =~= w);
                    }
                    return Some(Error::PluginInvoke(out));
                }
                proof {
                    assert forall|e: Error| text@ != error_wire(e) by {
                        if text@ == error_wire(e) {
                            match e {
                                Error::NotSupported => {
                                    assert(false);
                                },
                                Error::PluginInvoke(m) => {
                                    lemma_plugin_invoke_parts(m@);
                                    assert(text@[n - 1] == '}');
                                    assert(false);
                                },
                            }
                        }
                    }
                }
                return None;
            }
            proof {
                assert forall|e: Error| text@ != error_wire(e) by {
                    if text@ == error_wire(e) {
                        match e {
                            Error::NotSupported => {
                                assert(false);
                            },
                            Error::PluginInvoke(m) => {
                                lemma_plugin_invoke_parts(m@);
                                lemma_scan_state(text@, m@, out@, i as int);
                                let b = m@.subrange(out@.len() as int, m@.len() as int);
                                if i as int == n - 2 {
                                    assert(false);
                                } else {
                                    if b.len() == 0 {
                                        assert(escaped(b) == Seq::<char>::empty());
                                    }
                                    lemma_escaped_head(b);
                                    assert(escaped(b)[0] == text@[i as int]);
                                    assert(false);
                                }
                            },
                        }
                    }
                }
            }
            return None;
        } else if c == '\\' {
            if i + 1 < n {
                let c2 = text.get_char(i + 1);
                if c2 == '"' || c2 == '\\' {
                    let ghost out0 = out@;
                    out.append(text.substring_char(i + 1, i + 2));
                    proof {
                        lemma_escaped_push(out0, c2);
                        assert(out@ =~= out0.push(c2));
                    }
                    i = i + 2;
                    proof {
                        assert(escaped(out@) =~= text@.subrange(34, i as int));
                    }
                } else {
                    proof {
                        assert forall|e: Error| text@ != error_wire(e) by {
                            if text@ == error_wire(e) {
                                match e {
                                    Error::NotSupported => {
                                        assert(false);
                                    },
                                    Error::PluginInvoke(m) => {
                                        lemma_plugin_invoke_parts(m@);
                                        lemma_scan_state(text@, m@, out@, i as int);
                                        let b = m@.subrange(out@.len() as int, m@.len() as int);
                                        if i as int == n - 2 {
                                            assert(false);
                                        } else {
                                            if b.len() == 0 {
                                                assert(escaped(b) == Seq::<char>::empty());
                                            }
                                            lemma_escaped_head(b);
                                            assert(escaped(b)[0] == text@[i as int]);
                                            assert(escaped(b)[1] == text@[i as int + 1]);
                                            assert(false);
                                        }
                                    },
                                }
                            }
                        }
                    }
                    return None;
                }
            } else {
                proof {
                    assert forall|e: Error| text@ != error_wire(e) by {
                        if text@ == error_wire(e) {
                            match e {
                                Error::NotSupported => {
                                    assert(false);
                                },
                                Error::PluginInvoke(m) => {
                                    lemma_plugin_invoke_parts(m@);
                                    lemma_scan_state(text@, m@, out@, i as int);
                                    let b = m@.subrange(out@.len() as int, m@.len() as int);
                                    if i as int == n - 2 {
                                        assert(false);
                                    } else {
                                        if b.len() == 0 {
                                            assert(escaped(b) == Seq::<char>::empty());
                                        }
                                        lemma_escaped_head(b);
                                        assert(escaped(b).len() >= 2);
                                        assert(false);
                                    }
                                },
                            }
                        }
                    }
                }
                return None;
            }
        } else {
            let ghost out0 = out@;
            out.append(text.substring_char(i, i + 1));
            proof {
                lemma_escaped_push(out0, c);
                assert(out@ =~= out0.push(c));
            }
            i = i + 1;
            proof {
                assert(escaped(out@) =~= text@.subrange(34, i as int));
            }
        }
    }
}

} // verus!
