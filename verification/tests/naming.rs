use vectorlink::naming::derived_directory_name;
use vectorlink::naming::derived_path_name;
use vectorlink::naming::vector_file_name;

#[test]
fn plain_names_stand_for_themselves() {
    assert_eq!(vector_file_name("abcXYZ019-._~"), "abcXYZ019-._~.vecs");
    assert_eq!(vector_file_name(""), ".vecs");
    assert_eq!(derived_directory_name("wiki"), "wiki.derived");
}

#[test]
fn other_bytes_are_percent_encoded_in_upper_case() {
    assert_eq!(vector_file_name("a b"), "a%20b.vecs");
    assert_eq!(vector_file_name("dir/name"), "dir%2Fname.vecs");
    assert_eq!(vector_file_name("..\\x"), "..%5Cx.vecs");
    assert_eq!(vector_file_name("100%"), "100%25.vecs");
    assert_eq!(vector_file_name("\u{0}\u{7f}"), "%00%7F.vecs");
    assert_eq!(derived_directory_name("a:b?c"), "a%3Ab%3Fc.derived");
}

#[test]
fn names_outside_ascii_are_encoded_byte_by_byte() {
    assert_eq!(vector_file_name("é"), "%C3%A9.vecs");
    assert_eq!(vector_file_name("👾 !"), "%F0%9F%91%BE%20%21.vecs");
}

#[test]
fn different_names_give_different_files() {
    let names = ["a", "A", "a ", "a%20", "a/b", "a%2Fb", "a%2fb", "é", "%C3%A9", "", "."];
    for x in names {
        for y in names {
            assert_eq!(x == y, vector_file_name(x) == vector_file_name(y));
        }
    }
}

#[test]
fn the_derived_directory_takes_the_place_of_the_extension() {
    assert_eq!(derived_directory_name("wiki"), "wiki.derived");
    assert_eq!(derived_directory_name("a.b"), "a.b.derived");
    assert_eq!(derived_directory_name("."), "..derived");
    assert_eq!(derived_directory_name(".."), "...derived");
    assert_eq!(derived_directory_name(".x"), ".x.derived");
    assert_eq!(derived_directory_name(" "), "%20.derived");
}

#[test]
fn the_file_of_the_unnamed_domain_has_no_extension_to_replace() {
    assert_eq!(vector_file_name(""), ".vecs");
    assert_eq!(derived_directory_name(""), ".vecs.derived");
    assert_eq!(derived_path_name("", "pq"), ".vecs.derived/pq");
}

#[test]
fn a_deriver_lies_under_the_derived_directory_of_its_domain() {
    assert_eq!(derived_path_name("wiki", "pq"), "wiki.derived/pq");
    assert_eq!(derived_path_name("a b", "narrow 16"), "a%20b.derived/narrow 16");
    assert_eq!(derived_path_name("wiki", ""), "wiki.derived/");
    assert_eq!(derived_path_name("wiki", "a/b"), "wiki.derived/a/b");
    assert_eq!(derived_path_name("wiki", "é"), "wiki.derived/é");
}

#[test]
fn a_deriver_named_by_an_absolute_path_stands_for_itself() {
    assert_eq!(derived_path_name("wiki", "/tmp/pq"), "/tmp/pq");
    assert_eq!(derived_path_name("", "/"), "/");
    let mut path = std::path::PathBuf::from("dir/wiki.vecs");
    path.set_extension("derived");
    path.push("/tmp/pq");
    assert_eq!(path, std::path::PathBuf::from("/tmp/pq"));
}

#[test]
fn derived_paths_agree_with_the_path_rules_of_the_platform() {
    for name in ["", "wiki", "a.b", ".", "..", ".x", "x.", "a b", "é"] {
        for derived in ["pq", "", "a/b", "/abs", "."] {
            let mut path = std::path::PathBuf::from("dir").join(vector_file_name(name));
            path.set_extension("derived");
            path.push(derived);
            let ours = std::path::PathBuf::from("dir").join(derived_path_name(name, derived));
            assert_eq!(path, ours);
        }
    }
}
