use advent2022::day13::Number;
use advent2022::day13::NumberTokenizer;
use advent2022::day13::Token;
use std::cmp::Ordering;

#[test]
fn basic_comparison() {
    let left = b"6";
    let right = b"[6]";
    assert_eq!(
        Number(left.to_vec()).compare(&Number(right.to_vec())),
        Ordering::Equal
    );
}

#[test]
fn bad_case() {
    let left = b"[[[7,[2,3,3],5,8,9],[[1,8,6,7]],6,[8,[0,8,0,7,10],[8],[6,9,1],1],9]]";
    let right = b"[[7,4],[[[8,7],3],[0,8,9],6],[8,[3,[],5,[10,0],2],[1,2,[9,4],0]],[[],[],10,[[3],4,2]],[10,[8,7],4,[[3,3,5,6],[],[9,8,4,1],[0],10],[]]]";
    assert_eq!(
        Number(left.to_vec()).compare(&Number(right.to_vec())),
        Ordering::Greater
    );
}

#[test]
fn tokenizer_reads_numbers_and_brackets() {
    let mut t = NumberTokenizer::new(b"[10,2]");
    assert_eq!(t.next_token(), Some(Token::ListStart));
    assert_eq!(t.next_token(), Some(Token::Number(10)));
    assert_eq!(t.next_token(), Some(Token::Number(2)));
    assert_eq!(t.next_token(), Some(Token::ListEnd));
    assert_eq!(t.next_token(), None);
}

#[test]
fn ordering_by_first_difference() {
    let less = Number(b"[1,2,3]".to_vec());
    let more = Number(b"[1,3]".to_vec());
    assert_eq!(less.compare(&more), Ordering::Less);
    assert_eq!(more.compare(&less), Ordering::Greater);
    // The shorter list comes first when it is a prefix of the other.
    let short = Number(b"[1,2]".to_vec());
    let long = Number(b"[1,2,3]".to_vec());
    assert_eq!(short.compare(&long), Ordering::Less);
    // A bare number compares as a one-element list.
    let bare = Number(b"[[1],4]".to_vec());
    let listed = Number(b"[1,4]".to_vec());
    assert_eq!(bare.compare(&listed), Ordering::Equal);
}
