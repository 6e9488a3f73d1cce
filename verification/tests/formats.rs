use sonata::formats::{SeekIndex, SeekPoint, SeekSearchResult};

#[test]
fn verify_seek_index_search() {
    let mut index = SeekIndex::new();
    index.insert(50 , 0,  45);
    index.insert(120, 0,   4);
    index.insert(320, 0, 100);
    index.insert(421, 0,  10);
    index.insert(500, 0,  12);
    index.insert(600, 0,  12);

    assert_eq!(index.search(25) , SeekSearchResult::Upper(SeekPoint::new(50 ,0, 45)));
    assert_eq!(index.search(700), SeekSearchResult::Lower(SeekPoint::new(600,0, 12)));
    assert_eq!(
        index.search(110),
        SeekSearchResult::Range(SeekPoint::new(50 ,0, 45),
        SeekPoint::new(120,0,4))
    );
    assert_eq!(
        index.search(340),
        SeekSearchResult::Range(SeekPoint::new(320,0,100),
        SeekPoint::new(421,0,10))
    );
    assert_eq!(
        index.search(320),
        SeekSearchResult::Range(SeekPoint::new(320,0,100),
        SeekPoint::new(421,0,10))
    );
}
