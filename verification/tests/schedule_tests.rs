use compiler_tester::schedule::{
    contains_pattern, CompilerKind, CompilerTester, DirectoryListing, Filters,
};
use compiler_tester::summary::Summary;

fn filters(allow: &[&str], deny: &[&str]) -> Filters {
    Filters::new(
        allow.iter().map(|p| p.as_bytes().to_vec()).collect(),
        deny.iter().map(|p| p.as_bytes().to_vec()).collect(),
    )
}

fn idents(names: &[&str]) -> Vec<Vec<u8>> {
    names.iter().map(|n| n.as_bytes().to_vec()).collect()
}

fn tester(allow: &[&str], deny: &[&str]) -> CompilerTester {
    CompilerTester::new(Summary::new(), filters(allow, deny))
}

#[test]
fn pattern_search_finds_substrings() {
    let hay = b"tests/solidity/simple/loop.sol".to_vec();
    assert!(contains_pattern(&hay, &b"solidity".to_vec()));
    assert!(contains_pattern(&hay, &b"loop.sol".to_vec()));
    assert!(contains_pattern(&hay, &Vec::new()));
    assert!(!contains_pattern(&hay, &b"vyper".to_vec()));
    assert!(!contains_pattern(&b"ab".to_vec(), &b"abc".to_vec()));
}

#[test]
fn empty_filters_enable_everything() {
    let f = filters(&[], &[]);
    assert!(f.enabled(&b"anything".to_vec()));
}

#[test]
fn allow_and_deny_patterns_combine() {
    let f = filters(&["simple"], &["broken"]);
    assert!(f.enabled(&b"tests/simple/a".to_vec()));
    assert!(!f.enabled(&b"tests/complex/a".to_vec()));
    assert!(!f.enabled(&b"tests/simple/broken".to_vec()));
}

#[test]
fn directory_expands_cartesian_product() {
    let t = tester(&[], &["skip"]);
    let modes = idents(&["O0", "O3"]);
    let names = idents(&["a.sol", "skip_me.sol", "b.sol"]);
    let units = t.directory(&names, CompilerKind::Solidity, &modes);
    assert_eq!(units.len(), 4);
    assert_eq!(units[0].ident, b"a.sol".to_vec());
    assert_eq!(units[0].mode, b"O0".to_vec());
    assert_eq!(units[1].ident, b"a.sol".to_vec());
    assert_eq!(units[1].mode, b"O3".to_vec());
    assert_eq!(units[2].ident, b"b.sol".to_vec());
    assert_eq!(units[2].mode, b"O0".to_vec());
    assert_eq!(units[3].ident, b"b.sol".to_vec());
    assert_eq!(units[3].mode, b"O3".to_vec());
    assert!(units.iter().all(|u| u.compiler == CompilerKind::Solidity));
}

#[test]
fn plan_concatenates_directories_in_order() {
    let t = tester(&[], &[]);
    let listings = vec![
        DirectoryListing {
            idents: idents(&["x.sol"]),
            compiler: CompilerKind::Solidity,
            modes: idents(&["O2"]),
        },
        DirectoryListing {
            idents: idents(&["y.vy"]),
            compiler: CompilerKind::Vyper,
            modes: idents(&["v1", "v2"]),
        },
    ];
    let units = t.plan(&listings);
    assert_eq!(units.len(), 3);
    assert_eq!(units[0].compiler, CompilerKind::Solidity);
    assert_eq!(units[1].compiler, CompilerKind::Vyper);
    assert_eq!(units[2].compiler, CompilerKind::Vyper);
    assert_eq!(units[2].mode, b"v2".to_vec());
}

#[test]
fn empty_modes_expand_to_nothing() {
    let t = tester(&[], &[]);
    let units = t.directory(&idents(&["a", "b"]), CompilerKind::Yul, &Vec::new());
    assert!(units.is_empty());
}
