use ndlm::buffer::BufferError;
use ndlm::draw::DrawError;
use ndlm::error::Error;

#[test]
fn an_error_is_made_from_each_of_its_kinds() {
    assert!(matches!(
        Error::from(BufferError::OutOfBounds),
        Error::Buffer(BufferError::OutOfBounds)
    ));
    assert!(matches!(
        Error::from(DrawError::GlyphNotInCache('x')),
        Error::Draw(DrawError::GlyphNotInCache('x'))
    ));
    let io = std::io::Error::new(std::io::ErrorKind::NotFound, "gone");
    assert!(matches!(Error::from(io), Error::Io(e) if e.kind() == std::io::ErrorKind::NotFound));
}

#[test]
fn the_question_mark_converts_to_an_error() {
    fn buffer() -> Result<(), Error> {
        Err(BufferError::OutOfBounds)?;
        Ok(())
    }
    fn draw() -> Result<(), Error> {
        Err(DrawError::GlyphNotInCache('q'))?;
        Ok(())
    }
    assert!(matches!(buffer(), Err(Error::Buffer(BufferError::OutOfBounds))));
    assert!(matches!(draw(), Err(Error::Draw(DrawError::GlyphNotInCache('q')))));
}
