//! How a domain's name becomes the name of its files.
//!
//! The name is percent-encoded: letters, digits and `-`, `.`, `_`, `~` stand
//! for themselves, every other byte of the name's UTF-8 form becomes `%` and
//! two upper-case hexadecimal digits. Different names thus give different file
//! names, and a file name holds no byte that a file system objects to.
//!
//! What is derived from a domain lies in a directory beside the domain's
//! file, named as the file is but with the extension `derived`; each deriver
//! has its place under that directory, by its own name. The paths follow the
//! rules by which `std::path` replaces an extension and appends a component
//! on Unix: a file name that is a dot and a word has no extension to
//! replace, and a component that begins with `/` replaces the path.
use vstd::prelude::*;
use vstd::string::StrSliceExecFns;
use vstd::string::StringExecFns;
use vstd::utf8::decode_utf8;
use vstd::utf8::encode_utf8;
use vstd::utf8::encode_utf8_decode_utf8;

verus! {

/// Whether a byte stands for itself in an encoded name.
pub open spec fn is_unreserved(b: u8) -> bool {
    ||| 0x30 <= b <= 0x39
    ||| 0x41 <= b <= 0x5a
    ||| 0x61 <= b <= 0x7a
    ||| b == 0x2d
    ||| b == 0x2e
    ||| b == 0x5f
    ||| b == 0x7e
}

/// The upper-case hexadecimal digit for a value below sixteen.
pub open spec fn hex_digit(d: u8) -> u8 {
    if d < 10 {
        (0x30 + d) as u8
    } else {
        (0x37 + d) as u8
    }
}

/// What one byte of a name becomes.
pub open spec fn encoded_byte(b: u8) -> Seq<u8> {
    if is_unreserved(b) {
        seq![b]
    } else {
        seq![0x25u8, hex_digit(b / 16), hex_digit(b % 16)]
    }
}

/// The percent-encoding of a byte string.
pub open spec fn percent_encoded(bytes: Seq<u8>) -> Seq<u8>
    decreases bytes.len(),
{
    if bytes.len() == 0 {
        Seq::empty()
    } else {
        encoded_byte(bytes[0]) + percent_encoded(bytes.skip(1))
    }
}

/// A string of ASCII bytes as characters.
pub open spec fn ascii_chars(bytes: Seq<u8>) -> Seq<char> {
    Seq::new(bytes.len(), |i: int| bytes[i] as char)
}

/// The percent-encoding of a name, as characters.
pub open spec fn encoded_name(name: Seq<char>) -> Seq<char> {
    ascii_chars(percent_encoded(encode_utf8(name)))
}

/// Percent-encodes a name with `urlencoding::encode`, which leaves ASCII
/// letters, digits and `-`, `.`, `_`, `~` as they are and writes every other
/// byte of the UTF-8 form as `%` and two upper-case hexadecimal digits.
#[verifier::external_body]
fn percent_encode(name: &str) -> (encoded: String)
    ensures
        encoded@ == encoded_name(name@),
{
    urlencoding::encode(name).into_owned()
}

/// The name of the file that holds the vectors of the domain `name`.
pub fn vector_file_name(name: &str) -> (file_name: String)
    ensures
        file_name@ == encoded_name(name@) + ".vecs"@,
{
    percent_encode(name).concat(".vecs")
}

/// The name of the directory that holds what is derived from the domain
/// `name`: the name of the domain's file with `derived` in place of its
/// extension. The file of the domain named by the empty string is `.vecs`,
/// a name that has no extension; there `derived` is added as one.
pub open spec fn derived_directory(name: Seq<char>) -> Seq<char> {
    if name.len() == 0 {
        ".vecs.derived"@
    } else {
        encoded_name(name) + ".derived"@
    }
}

/// The path, below the directory of a domain's files, of what belongs to the
/// deriver `derived` of the domain `name`: the deriver's name under the
/// domain's derived directory. A deriver's name that begins with `/` is a
/// path of its own and stands for itself.
pub open spec fn derived_path(name: Seq<char>, derived: Seq<char>) -> Seq<char> {
    if derived.len() > 0 && derived[0] == '/' {
        derived
    } else {
        derived_directory(name) + "/"@ + derived
    }
}

/// The name of the directory that holds what is derived from the domain `name`.
pub fn derived_directory_name(name: &str) -> (directory: String)
    ensures
        directory@ == derived_directory(name@),
{
    if name.is_empty() {
        String::from_str(".vecs.derived")
    } else {
        percent_encode(name).concat(".derived")
    }
}

/// The path of what belongs to the deriver `derived` of the domain `name`.
pub fn derived_path_name(name: &str, derived: &str) -> (path: String)
    ensures
        path@ == derived_path(name@, derived@),
{
    if !derived.is_empty() && derived.get_char(0) == '/' {
        String::from_str(derived)
    } else {
        derived_directory_name(name).concat("/").concat(derived)
    }
}

/// The hexadecimal digits of two values below sixteen differ if the values do.
proof fn lemma_hex_digit_injective(a: u8, b: u8)
    requires
        a < 16,
        b < 16,
        hex_digit(a) == hex_digit(b),
    ensures
        a == b,
{
}

/// What a byte becomes never starts with a byte that stands for itself,
/// unless the byte does; it is one byte long then, and three bytes otherwise.
proof fn lemma_encoded_byte_shape(b: u8)
    ensures
        is_unreserved(b) ==> encoded_byte(b).len() == 1 && encoded_byte(b)[0] == b,
        !is_unreserved(b) ==> encoded_byte(b).len() == 3 && encoded_byte(b)[0] == 0x25,
        !is_unreserved(0x25),
{
}

/// Different byte strings have different percent-encodings.
pub proof fn lemma_percent_encoded_injective(a: Seq<u8>, b: Seq<u8>)
    requires
        percent_encoded(a) == percent_encoded(b),
    ensures
        a == b,
    decreases a.len(),
{
    if a.len() == 0 {
        if b.len() > 0 {
            lemma_encoded_byte_shape(b[0]);
            assert(percent_encoded(b).len() > 0);
        }
        assert(a =~= b);
    } else {
        lemma_encoded_byte_shape(a[0]);
        if b.len() == 0 {
            assert(percent_encoded(a).len() > 0);
        } else {
            lemma_encoded_byte_shape(b[0]);
            let ea = encoded_byte(a[0]);
            let eb = encoded_byte(b[0]);
            let ra = percent_encoded(a.skip(1));
            let rb = percent_encoded(b.skip(1));
            let whole = percent_encoded(a);
            assert(whole == ea + ra);
            assert(whole == eb + rb);
            assert(whole[0] == ea[0]);
            assert(whole[0] == eb[0]);
            if is_unreserved(a[0]) {
                assert(is_unreserved(b[0]));
                assert(a[0] == b[0]);
            } else {
                assert(!is_unreserved(b[0]));
                assert(whole[1] == ea[1] && whole[1] == eb[1]);
                assert(whole[2] == ea[2] && whole[2] == eb[2]);
                lemma_hex_digit_injective(a[0] / 16, b[0] / 16);
                lemma_hex_digit_injective(a[0] % 16, b[0] % 16);
                assert(a[0] == b[0]);
            }
            assert(ea == eb);
            assert(ra =~= whole.skip(ea.len() as int));
            assert(rb =~= whole.skip(eb.len() as int));
            lemma_percent_encoded_injective(a.skip(1), b.skip(1));
            assert(a =~= seq![a[0]] + a.skip(1));
            assert(b =~= seq![b[0]] + b.skip(1));
        }
    }
}

/// Different names have different encoded names, and so different files.
pub proof fn lemma_encoded_name_injective(a: Seq<char>, b: Seq<char>)
    requires
        encoded_name(a) == encoded_name(b),
    ensures
        a == b,
{
    let ea = percent_encoded(encode_utf8(a));
    let eb = percent_encoded(encode_utf8(b));
    assert(ascii_chars(ea).len() == ascii_chars(eb).len());
    assert forall|i: int| 0 <= i < ea.len() implies ea[i] == eb[i] by {
        assert(ascii_chars(ea)[i] == ascii_chars(eb)[i]);
        assert((ea[i] as char) as u8 == ea[i]);
        assert((eb[i] as char) as u8 == eb[i]);
    }
    assert(ea =~= eb);
    lemma_percent_encoded_injective(encode_utf8(a), encode_utf8(b));
    encode_utf8_decode_utf8(a);
    encode_utf8_decode_utf8(b);
    assert(decode_utf8(encode_utf8(a)) == a);
    assert(decode_utf8(encode_utf8(b)) == b);
}

} // verus!
