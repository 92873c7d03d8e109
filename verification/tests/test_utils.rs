#[derive(Copy, Clone)]
struct ByteSet([bool; 256]);

impl ByteSet {
    fn remove_range(&mut self, range: core::ops::RangeInclusive<u8>) {
        self.0[*range.start() as usize..=*range.end() as usize].fill(false);
    }
    fn remove(&mut self, byte: u8) {
        self.0[byte as usize] = false;
    }
    fn insert(&mut self, byte: u8) {
        self.0[byte as usize] = true;
    }

    fn iter(&self) -> impl DoubleEndedIterator<Item = (u8, bool)> + Clone + '_ {
        self.0
            .iter()
            .copied()
            .enumerate()
            .map(|(i, x)| (i as u8, x))
    }
}

#[test]
fn byteset_insert_test() {
    let mut set = ByteSet([false; 256]);

    {
        let mut iter = set.iter();
        for i in 0..=255u8 {
            assert_eq!(iter.next(), Some((i, false)));
        }
    }
    {
        let mut iter = set.iter().filter(|x| x.1);
        assert_eq!(iter.next(), None);
    }
    {
        set.insert(b'=');
        set.insert(b' ');
        set.insert(b'4');
        let mut iter = set.iter().filter(|x| x.1);
        assert_eq!(iter.next(), Some((b' ', true)));
        assert_eq!(iter.next(), Some((b'4', true)));
        assert_eq!(iter.next(), Some((b'=', true)));
        assert_eq!(iter.next(), None);
    }
}

#[test]
fn byteset_remove_test() {
    let mut set = ByteSet([true; 256]);
    {
        let mut iter = set.iter();
        for i in 0..=255u8 {
            assert_eq!(iter.next(), Some((i, true)));
        }
    }
    set.remove_range(0..=b'0');
    set.remove_range(b'6'..=255);
    set.remove(b'4');
    {
        let mut iter = set.iter().filter(|x| x.1);
        assert_eq!(iter.next(), Some((b'1', true)));
        assert_eq!(iter.next(), Some((b'2', true)));
        assert_eq!(iter.next(), Some((b'3', true)));
        assert_eq!(iter.next(), Some((b'5', true)));
        assert_eq!(iter.next(), None);
    }
}

#[test]
fn byteset_is_the_alphabet_of_hex() {
    // the set that the decoding tests walk: every byte but the digits
    let mut set = ByteSet([true; 256]);
    set.remove_range(b'0'..=b'9');
    set.remove_range(b'A'..=b'F');
    set.remove_range(b'a'..=b'f');
    for (b, is_invalid) in set.iter() {
        let res = const_base::decode::<1>(&[b'0', b], const_base::Config::hex());
        assert_eq!(res.is_err(), is_invalid);
    }
}
