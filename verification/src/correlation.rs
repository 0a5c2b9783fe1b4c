use vstd::prelude::*;

verus! {

/// Whether `s` can travel in a correlation header: nonempty, printable
/// ASCII only.
pub open spec fn valid_correlation(s: Seq<char>) -> bool {
    &&& s.len() >= 1
    &&& forall|i: int| 0 <= i < s.len() ==> 32 <= (#[trigger] s[i]) as u32 <= 126
}

/// The identifier a request is processed under: the inbound one when it
/// is present and well formed, else the freshly generated one.  This
/// resolution never fails.
pub open spec fn resolve_spec(inbound: Option<Seq<char>>, generated: Seq<char>) -> Seq<char> {
    match inbound {
        Some(s) => if valid_correlation(s) {
            s
        } else {
            generated
        },
        None => generated,
    }
}

/// Whether `s` can travel in a correlation header.
pub fn is_valid_correlation(s: &str) -> (b: bool)
    ensures
        b == valid_correlation(s@),
{
    let n = s.unicode_len();
    if n == 0 {
        return false;
    }
    let mut i: usize = 0;
    while i < n
        invariant
            0 <= i <= n,
            n == s@.len(),
            forall|j: int| 0 <= j < i ==> 32 <= (#[trigger] s@[j]) as u32 <= 126,
        decreases n - i,
    {
        let c = s.get_char(i);
        let cv = c as u32;
        if cv < 32 || cv > 126 {
            return false;
        }
        i = i + 1;
    }
    true
}

/// Resolves the correlation identifier for one request.  The caller
/// supplies a well-formed freshly generated token; the result is the
/// inbound value exactly when it was present and well formed.
pub fn resolve_correlation(inbound: Option<&String>, generated: String) -> (r: String)
    requires
        valid_correlation(generated@),
    ensures
        valid_correlation(r@),
        match inbound {
            Some(s) => r@ == resolve_spec(Some(s@), generated@),
            None => r@ == resolve_spec(None, generated@),
        },
{
    match inbound {
        Some(s) => {
            if is_valid_correlation(s.as_str()) {
                s.clone()
            } else {
                generated
            }
        },
        None => generated,
    }
}

} // verus!
